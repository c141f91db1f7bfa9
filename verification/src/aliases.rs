//! Type aliases: the names each alias refers to, cycles among aliases, and
//! an order in which they can be resolved.
use vstd::prelude::*;
use crate::defs::{Span, Spanned};
use crate::toks::strings_view;
use crate::ast::{Array, IdentOrUnion, IdentOrUnionV, PathOrIdent, PathOrIdentV, Type, TypeExpr, TypeExprOp, TypeExprV, TypeV, ArgV, UnionDiscriminant, Union, args_view, types_view, union_view};
use crate::ast_ops::lemma_types_view;
use crate::helpers::AliasEntry;
use crate::ordmap::{StrMap, seq_lt, compare_str, Order, lemma_key_index_from, lemma_lt_transitive, lemma_lt_total, lemma_lt_irreflexive};

verus! {

/// The index of the first smallest string.
pub open spec fn first_min_index(s: Seq<Seq<char>>) -> int
    decreases s.len(),
{
    if s.len() <= 1 {
        0
    } else {
        let m = first_min_index(s.drop_last());
        if seq_lt(s.last(), s[m]) {
            s.len() - 1
        } else {
            m
        }
    }
}

/// `s` turned to start at `m`.
pub open spec fn rotate<A>(s: Seq<A>, m: int) -> Seq<A> {
    s.subrange(m, s.len() as int) + s.subrange(0, m)
}

pub proof fn lemma_first_min_index(s: Seq<Seq<char>>)
    requires
        s.len() > 0,
    ensures
        0 <= first_min_index(s) < s.len(),
        forall|j: int| 0 <= j < s.len() ==> !seq_lt(#[trigger] s[j], s[first_min_index(s)]),
        forall|j: int| 0 <= j < first_min_index(s) ==> seq_lt(s[first_min_index(s)], #[trigger] s[j]),
    decreases s.len(),
{
    if s.len() > 1 {
        let p = s.drop_last();
        lemma_first_min_index(p);
        let m = first_min_index(p);
        assert(p[m] == s[m]);
        if seq_lt(s.last(), s[m]) {
            assert forall|j: int| 0 <= j < s.len() implies !seq_lt(#[trigger] s[j], s[s.len() - 1]) by {
                if j < s.len() - 1 {
                    assert(p[j] == s[j]);
                    if seq_lt(s[j], s.last()) {
                        lemma_lt_transitive(s[j], s.last(), s[m]);
                    }
                } else {
                    lemma_lt_irreflexive(s[j]);
                }
            }
            assert forall|j: int| 0 <= j < s.len() - 1 implies seq_lt(s[s.len() - 1], #[trigger] s[j]) by {
                assert(p[j] == s[j]);
                lemma_lt_total(s[j], s[m]);
                if s[j] != s[m] {
                    lemma_lt_transitive(s.last(), s[m], s[j]);
                }
            }
        } else {
            assert forall|j: int| 0 <= j < s.len() implies !seq_lt(#[trigger] s[j], s[m]) by {
                if j < s.len() - 1 {
                    assert(p[j] == s[j]);
                }
            }
            assert forall|j: int| 0 <= j < m implies seq_lt(s[m], #[trigger] s[j]) by {
                assert(p[j] == s[j]);
            }
        }
    }
}

/// Turns a cycle to start at its first smallest name, and its companion
/// list with it, so that a cycle is reported the same whichever member it
/// was found from.
pub fn normalize_cycle<T>(chain: Vec<String>, associated: Vec<T>) -> (r: (Vec<String>, Vec<T>))
    requires
        chain@.len() == 0 || first_min_index(strings_view(chain@)) <= associated@.len(),
    ensures
        chain@.len() == 0 ==> r.0@ == chain@ && r.1@ == associated@,
        chain@.len() > 0 ==> {
            &&& r.0@ == rotate(chain@, first_min_index(strings_view(chain@)))
            &&& r.1@ == rotate(associated@, first_min_index(strings_view(chain@)))
        },
{
    if chain.len() == 0 {
        return (chain, associated);
    }
    let ghost sv = strings_view(chain@);
    let mut min_idx: usize = 0;
    let mut k: usize = 1;
    while k < chain.len()
        invariant
            1 <= k <= chain@.len(),
            sv == strings_view(chain@),
            min_idx == first_min_index(sv.subrange(0, k as int)),
        decreases chain@.len() - k,
    {
        proof {
            assert(sv.subrange(0, k + 1).drop_last() =~= sv.subrange(0, k as int));
            lemma_first_min_index(sv.subrange(0, k as int));
            assert(sv.subrange(0, k as int)[min_idx as int] == sv[min_idx as int]);
        }
        match compare_str(&chain[k], &chain[min_idx]) {
            Order::Less => {
                min_idx = k;
            },
            _ => {},
        }
        k += 1;
    }
    assert(sv.subrange(0, chain@.len() as int) =~= sv);
    proof { lemma_first_min_index(sv); }
    let (c, a) = (rotate_vec(chain, min_idx), rotate_vec(associated, min_idx));
    (c, a)
}

/// `v` turned to start at `m`, by moving its elements.
fn rotate_vec<T>(v: Vec<T>, m: usize) -> (r: Vec<T>)
    requires
        m <= v@.len(),
    ensures
        r@ == rotate(v@, m as int),
{
    let mut head = v;
    let ghost all = head@;
    let mut tail = head.split_off(m);
    assert(tail@ == all.subrange(m as int, all.len() as int));
    tail.append(&mut head);
    tail
}

/// The alias names a type refers to, in order: bare identifiers only, since
/// a path names something outside the alias graph.
pub open spec fn type_deps(t: TypeV) -> Seq<Seq<char>>
    decreases t,
{
    match t {
        TypeV::Ident(p) => ident_deps(p),
        TypeV::Array(e, _) => type_deps(*e),
        TypeV::Union(ops) => union_deps(ops),
        TypeV::UnionOr(l, r) => type_deps(*l) + type_deps(*r),
        TypeV::Paren(inner) => type_deps(*inner),
        TypeV::OneOf(vs) => seq_deps(vs),
        TypeV::Struct(fields) => field_deps(fields),
        TypeV::Builtin(_) => Seq::empty(),
        TypeV::Result(_) => Seq::empty(),
        TypeV::TypeExpr(e) => expr_deps(e),
    }
}

pub open spec fn ident_deps(p: PathOrIdentV) -> Seq<Seq<char>> {
    match p {
        PathOrIdentV::Ident(s) => seq![s],
        PathOrIdentV::Path(_) => Seq::empty(),
    }
}

pub open spec fn seq_deps(s: Seq<TypeV>) -> Seq<Seq<char>>
    decreases s,
{
    if s.len() == 0 {
        Seq::empty()
    } else {
        seq_deps(s.drop_last()) + type_deps(s.last())
    }
}

pub open spec fn field_deps(s: Seq<ArgV>) -> Seq<Seq<char>>
    decreases s,
{
    if s.len() == 0 {
        Seq::empty()
    } else {
        field_deps(s.drop_last()) + type_deps(s.last().typ)
    }
}

pub open spec fn union_deps(s: Seq<IdentOrUnionV>) -> Seq<Seq<char>>
    decreases s,
{
    if s.len() == 0 {
        Seq::empty()
    } else {
        union_deps(s.drop_last()) + match s.last() {
            IdentOrUnionV::Ref(p) => ident_deps(p),
            IdentOrUnionV::Anonymous(_) => Seq::empty(),
            IdentOrUnionV::Nested(ops) => union_deps(ops),
        }
    }
}

pub open spec fn expr_deps(e: TypeExprV) -> Seq<Seq<char>>
    decreases e,
{
    match e {
        TypeExprV::TypeRef(p) => ident_deps(p),
        TypeExprV::FieldAccess(b, _) => expr_deps(*b),
        TypeExprV::Pick(t, _) => expr_deps(*t),
        TypeExprV::Omit(t, _) => expr_deps(*t),
        TypeExprV::Partial(t, _) => expr_deps(*t),
        TypeExprV::Required(t, _) => expr_deps(*t),
        TypeExprV::Exclude(t, _) => expr_deps(*t),
        TypeExprV::Extract(t, _) => expr_deps(*t),
        TypeExprV::ArrayItem(t) => expr_deps(*t),
    }
}

proof fn lemma_strings_concat(a: Seq<String>, b: Seq<String>)
    ensures
        strings_view(a + b) == strings_view(a) + strings_view(b),
{
    assert(strings_view(a + b) =~= strings_view(a) + strings_view(b));
}

/// Appends `more` to `out`.
fn append_names(out: &mut Vec<String>, more: Vec<String>)
    ensures
        strings_view(final(out)@) == strings_view(old(out)@) + strings_view(more@),
{
    let mut more = more;
    let ghost a = out@;
    let ghost b = more@;
    out.append(&mut more);
    proof { lemma_strings_concat(a, b); }
}

fn ident_dependencies(p: &PathOrIdent) -> (r: Vec<String>)
    ensures
        strings_view(r@) == ident_deps(p@),
{
    let mut v: Vec<String> = Vec::new();
    match p {
        PathOrIdent::Ident(i) => {
            v.push(i.value.0.clone());
            assert(strings_view(v@) =~= seq![i.value.0@]);
        },
        PathOrIdent::Path(_) => {
            assert(strings_view(v@) =~= Seq::<Seq<char>>::empty());
        },
    }
    v
}

/// The type aliases of a namespace, by name.
pub struct AliasGraph {
    pub aliases: StrMap<AliasEntry>,
}

impl AliasGraph {
    pub fn new() -> (r: Self)
        ensures
            r.aliases.wf(),
            r.aliases.entries().len() == 0,
    {
        AliasGraph { aliases: StrMap::new() }
    }

    /// Records an alias with the names its target refers to; a second alias
    /// of the same name replaces the first.
    pub fn add_alias(&mut self, name: String, target_type: Spanned<Type>, source: String)
        requires
            old(self).aliases.wf(),
        ensures
            final(self).aliases.wf(),
            forall|k: Seq<char>| k != name@ ==> #[trigger] final(self).aliases.spec_get(k) == old(self).aliases.spec_get(k),
            final(self).aliases.spec_get(name@) matches Some(e) && e.source == source
                && e.target_type == target_type
                && strings_view(e.dependencies@) == type_deps(target_type.value@),
    {
        let dependencies = Self::extract_type_dependencies(&target_type.value);
        self.aliases.insert(name, AliasEntry { target_type, source, dependencies });
    }

    /// The alias names a type refers to, in order.
    pub fn extract_type_dependencies(typ: &Type) -> (r: Vec<String>)
        ensures
            strings_view(r@) == type_deps(typ@),
        decreases typ,
    {
        let mut deps: Vec<String> = Vec::new();
        match typ {
            Type::Ident { to } => {
                deps = ident_dependencies(to);
            },
            Type::Array { ty } => {
                proof {
                    assert(decreases_to!(*typ => (*typ)->Array_ty));
                    assert(decreases_to!((*typ)->Array_ty => (*typ)->Array_ty.value));
                }
                match &ty.value {
                    Array::Unsized { ty: element_ty } => {
                        proof {
                            assert(decreases_to!((*typ)->Array_ty.value => (*typ)->Array_ty.value->Unsized_ty));
                            assert(decreases_to!((*typ)->Array_ty.value->Unsized_ty => (*typ)->Array_ty.value->Unsized_ty.value));
                        }
                        deps = Self::extract_type_dependencies(&element_ty.value);
                    },
                    Array::Sized { ty: element_ty, .. } => {
                        proof {
                            assert(decreases_to!((*typ)->Array_ty.value => (*typ)->Array_ty.value->Sized_ty));
                            assert(decreases_to!((*typ)->Array_ty.value->Sized_ty => (*typ)->Array_ty.value->Sized_ty.value));
                        }
                        deps = Self::extract_type_dependencies(&element_ty.value);
                    },
                }
            },
            Type::Union { ty } => {
                proof {
                    assert(decreases_to!(*typ => (*typ)->Union_ty));
                    assert(decreases_to!((*typ)->Union_ty => (*typ)->Union_ty.value));
                }
                deps = Self::union_dependencies(&ty.value);
            },
            Type::UnionOr { lhs, rhs } => {
                proof {
                    assert(decreases_to!(*typ => (*typ)->lhs));
                    assert(decreases_to!((*typ)->lhs => (*typ)->lhs.value));
                    assert(decreases_to!(*typ => (*typ)->rhs));
                    assert(decreases_to!((*typ)->rhs => (*typ)->rhs.value));
                }
                deps = Self::extract_type_dependencies(&lhs.value);
                let more = Self::extract_type_dependencies(&rhs.value);
                append_names(&mut deps, more);
            },
            Type::Paren { ty } => {
                proof {
                    assert(decreases_to!(*typ => (*typ)->Paren_ty));
                    assert(decreases_to!((*typ)->Paren_ty => (*typ)->Paren_ty.value));
                }
                deps = Self::extract_type_dependencies(&ty.value);
            },
            Type::OneOf { ty } => {
                let vs = &ty.value.variants;
                proof { lemma_types_view(vs@); }
                let mut k: usize = 0;
                while k < vs.len()
                    invariant
                        *typ == (Type::OneOf { ty: *ty }),
                        *vs == ty.value.variants,
                        k <= vs@.len(),
                        strings_view(deps@) == seq_deps(types_view(vs@.subrange(0, k as int))),
                    decreases vs@.len() - k,
                {
                    proof {
                        assert(decreases_to!(*typ => (*typ)->OneOf_ty));
                        assert(decreases_to!((*typ)->OneOf_ty => (*typ)->OneOf_ty.value));
                        assert(decreases_to!((*typ)->OneOf_ty.value => (*typ)->OneOf_ty.value.variants));
                        assert(decreases_to!((*typ)->OneOf_ty.value.variants => (*typ)->OneOf_ty.value.variants@));
                        assert(decreases_to!(vs@ => vs@[k as int]));
                        assert(decreases_to!(vs@[k as int] => vs@[k as int].value));
                    }
                    let more = Self::extract_type_dependencies(&vs[k].value);
                    append_names(&mut deps, more);
                    proof {
                        let pre = vs@.subrange(0, k as int);
                        let post = vs@.subrange(0, k + 1);
                        assert(post.drop_last() =~= pre);
                        assert(types_view(post).drop_last() =~= types_view(pre));
                    }
                    k += 1;
                }
                assert(vs@.subrange(0, vs@.len() as int) =~= vs@);
            },
            Type::Struct { ty } => {
                let fs = &ty.value.fields;
                let mut k: usize = 0;
                while k < fs.len()
                    invariant
                        *typ == (Type::Struct { ty: *ty }),
                        *fs == ty.value.fields,
                        k <= fs@.len(),
                        strings_view(deps@) == field_deps(args_view(fs@.subrange(0, k as int))),
                    decreases fs@.len() - k,
                {
                    proof {
                        assert(decreases_to!(*typ => (*typ)->Struct_ty));
                        assert(decreases_to!((*typ)->Struct_ty => (*typ)->Struct_ty.value));
                        assert(decreases_to!((*typ)->Struct_ty.value => (*typ)->Struct_ty.value.fields));
                        assert(decreases_to!((*typ)->Struct_ty.value.fields => (*typ)->Struct_ty.value.fields@));
                        assert(decreases_to!(fs@ => fs@[k as int]));
                        assert(decreases_to!(fs@[k as int] => fs@[k as int].value));
                        assert(decreases_to!(fs@[k as int].value => fs@[k as int].value.typ));
                    }
                    let more = Self::extract_type_dependencies(&fs[k].value.typ);
                    proof {
                        let pre = fs@.subrange(0, k as int);
                        let post = fs@.subrange(0, k + 1);
                        assert(post.drop_last() =~= pre);
                        assert(post.last() == fs@[k as int]);
                        assert(args_view(post) == args_view(pre).push(crate::ast::arg_view(fs@[k as int].value)));
                        assert(args_view(post).drop_last() =~= args_view(pre));
                        assert(field_deps(args_view(post)) == field_deps(args_view(pre)) + strings_view(more@));
                    }
                    append_names(&mut deps, more);
                    k += 1;
                }
                assert(fs@.subrange(0, fs@.len() as int) =~= fs@);
            },
            Type::Builtin { .. } | Type::Result { .. } => {
                assert(strings_view(deps@) =~= Seq::<Seq<char>>::empty());
            },
            Type::TypeExpr { expr } => {
                deps = Self::extract_type_expr_dependencies(&expr.value);
            },
        }
        deps
    }

    /// The alias names the operands of a union refer to, in order.
    fn union_dependencies(u: &Union) -> (r: Vec<String>)
        ensures
            strings_view(r@) == union_deps(union_view(u.types@)),
        decreases u,
    {
        let mut deps: Vec<String> = Vec::new();
        let ops = &u.types;
        let mut k: usize = 0;
        while k < ops.len()
            invariant
                *ops == u.types,
                k <= ops@.len(),
                strings_view(deps@) == union_deps(union_view(ops@.subrange(0, k as int))),
            decreases ops@.len() - k,
        {
            let more = match &ops[k].value {
                IdentOrUnion::Ident(UnionDiscriminant::Ref(p)) => ident_dependencies(p),
                IdentOrUnion::Ident(UnionDiscriminant::Anonymous(_)) => Vec::new(),
                IdentOrUnion::Union { inner } => {
                    proof {
                        assert(decreases_to!(*u => u.types));
                        assert(decreases_to!(u.types => u.types@));
                        assert(decreases_to!(ops@ => ops@[k as int]));
                        assert(decreases_to!(ops@[k as int] => ops@[k as int].value));
                        assert(decreases_to!(ops@[k as int].value => ops@[k as int].value->inner));
                        assert(decreases_to!(ops@[k as int].value->inner => ops@[k as int].value->inner.value));
                    }
                    Self::union_dependencies(&inner.value)
                },
            };
            proof {
                assert(strings_view(Seq::<String>::empty()) =~= Seq::<Seq<char>>::empty());
                let pre = ops@.subrange(0, k as int);
                let post = ops@.subrange(0, k + 1);
                assert(post.drop_last() =~= pre);
                assert(post.last() == ops@[k as int]);
                assert(union_view(post) == union_view(pre).push(crate::ast::operand_view(ops@[k as int].value)));
                assert(union_view(post).drop_last() =~= union_view(pre));
                assert(union_deps(union_view(post)) == union_deps(union_view(pre)) + strings_view(more@));
            }
            append_names(&mut deps, more);
            k += 1;
        }
        assert(ops@.subrange(0, ops@.len() as int) =~= ops@);
        deps
    }

    /// The alias names a type expression refers to.
    pub fn extract_type_expr_dependencies(expr: &TypeExpr) -> (r: Vec<String>)
        ensures
            strings_view(r@) == expr_deps(expr@),
        decreases expr,
    {
        match expr {
            TypeExpr::TypeRef { reference } => ident_dependencies(reference),
            TypeExpr::FieldAccess { base, .. } => {
                proof {
                    assert(decreases_to!(*expr => (*expr)->base));
                    assert(decreases_to!((*expr)->base => (*expr)->base.value));
                }
                Self::extract_type_expr_dependencies(&base.value)
            },
            TypeExpr::Op(op) => {
                proof {
                    assert(decreases_to!(*expr => (*expr)->Op_0));
                    assert(decreases_to!((*expr)->Op_0 => (*expr)->Op_0.value));
                }
                Self::extract_type_expr_op_dependencies(&op.value)
            },
        }
    }

    /// The alias names the target of an operator refers to.
    pub fn extract_type_expr_op_dependencies(op: &TypeExprOp) -> (r: Vec<String>)
        ensures
            strings_view(r@) == expr_deps(crate::ast::type_expr_view(TypeExpr::Op(Box::new(Spanned { span: Span::CallSite, value: *op })))),
        decreases op,
    {
        match op {
            TypeExprOp::Pick { target, .. }
            | TypeExprOp::Omit { target, .. }
            | TypeExprOp::Partial { target, .. }
            | TypeExprOp::Required { target, .. }
            | TypeExprOp::Exclude { target, .. }
            | TypeExprOp::Extract { target, .. }
            | TypeExprOp::ArrayItem { target } => Self::extract_type_expr_dependencies(target),
        }
    }
}

/// Alias `i` refers to alias `j`.
pub open spec fn alias_edge(e: Seq<(String, AliasEntry)>, i: int, j: int) -> bool {
    &&& 0 <= i < e.len()
    &&& 0 <= j < e.len()
    &&& strings_view(e[i].1.dependencies@).contains(e[j].0@)
}

/// `c` is a cycle of aliases: each refers to the next, the last to the first.
pub open spec fn is_alias_cycle(e: Seq<(String, AliasEntry)>, c: Seq<int>) -> bool {
    &&& c.len() > 0
    &&& forall|k: int| 0 <= k < c.len() - 1 ==> alias_edge(e, #[trigger] c[k], c[k + 1])
    &&& alias_edge(e, c[c.len() - 1], c[0])
}

/// `rank` orders the aliases so that each refers only to lower ranked ones.
pub open spec fn alias_ranking(e: Seq<(String, AliasEntry)>, rank: Seq<int>) -> bool {
    &&& rank.len() == e.len()
    &&& forall|i: int, j: int| #[trigger] alias_edge(e, i, j) ==> rank[j] < rank[i]
}

/// The aliases can be ranked: no alias reaches itself.
pub open spec fn aliases_acyclic(e: Seq<(String, AliasEntry)>) -> bool {
    exists|rank: Seq<int>| alias_ranking(e, rank)
}

/// The names of the aliases at the indices of `c`.
pub open spec fn cycle_names(e: Seq<(String, AliasEntry)>, c: Seq<int>) -> Seq<Seq<char>> {
    c.map_values(|i: int| e[i].0@)
}

/// Where each alias of `c` is defined: its target's span and its file.
pub open spec fn cycle_places(e: Seq<(String, AliasEntry)>, c: Seq<int>) -> Seq<(Span, Seq<char>)> {
    c.map_values(|i: int| (Span::Known(e[i].1.target_type.span.spec_raw()), e[i].1.source@))
}

/// A cycle among aliases, from its smallest name, with where each member is
/// defined.
#[derive(Debug)]
pub struct CircularAlias {
    pub chain: Vec<String>,
    pub places: Vec<(Span, String)>,
}

/// The places of a report, as values.
pub open spec fn places_view(p: Seq<(Span, String)>) -> Seq<(Span, Seq<char>)> {
    p.map_values(|x: (Span, String)| (x.0, x.1@))
}

/// `order` lists every alias once, each after the aliases it refers to.
pub open spec fn is_resolution_order(e: Seq<(String, AliasEntry)>, order: Seq<int>) -> bool {
    &&& order.len() == e.len()
    &&& order.no_duplicates()
    &&& forall|a: int| 0 <= a < order.len() ==> 0 <= #[trigger] order[a] < e.len()
    &&& forall|a: int, j: int| 0 <= a < order.len() && #[trigger] alias_edge(e, order[a], j) ==>
        exists|b: int| 0 <= b < a && order[b] == j
}

/// The position of `x` in `order`.
pub open spec fn position_of(order: Seq<int>, x: int) -> int {
    choose|p: int| 0 <= p < order.len() && order[p] == x
}

/// Each alias ranked by its position in `order`.
pub open spec fn position_rank(order: Seq<int>, n: nat) -> Seq<int> {
    Seq::new(n, |x: int| position_of(order, x))
}

/// An order in which each alias comes after what it refers to ranks the
/// aliases by position.
pub proof fn lemma_resolution_order_ranks(e: Seq<(String, AliasEntry)>, order: Seq<int>)
    requires
        is_resolution_order(e, order),
    ensures
        aliases_acyclic(e),
        alias_ranking(e, position_rank(order, e.len())),
        forall|x: int| 0 <= x < e.len() ==> {
            let p = #[trigger] position_rank(order, e.len())[x];
            0 <= p < e.len() && order[p] == x
        },
{
    let n = e.len();
    let qi = order;
    qi.unique_seq_to_set();
    let r = vstd::set_lib::set_int_range(0, n as int);
    vstd::set_lib::lemma_int_range(0, n as int);
    assert(qi.to_set().subset_of(r));
    vstd::set_lib::lemma_subset_equality(qi.to_set(), r);
    let rank = position_rank(order, n);
    assert forall|x: int| 0 <= x < n implies {
        let p = #[trigger] rank[x];
        0 <= p < n && order[p] == x
    } by {
        assert(r.contains(x));
        assert(qi.to_set().contains(x));
    }
    assert forall|i: int, j: int| #[trigger] alias_edge(e, i, j) implies rank[j] < rank[i] by {
        assert(r.contains(i) && r.contains(j));
        assert(qi.to_set().contains(i) && qi.to_set().contains(j));
        let pi = position_of(order, i);
        let pj = position_of(order, j);
        assert(alias_edge(e, order[pi], j));
        let b = choose|b: int| 0 <= b < pi && order[b] == j;
        assert(order[b] == order[pj]);
    }
    assert(alias_ranking(e, rank));
}

/// A ranking rules out every cycle.
pub proof fn law_ranked_aliases_have_no_cycle(e: Seq<(String, AliasEntry)>, rank: Seq<int>, c: Seq<int>)
    requires
        alias_ranking(e, rank),
    ensures
        !is_alias_cycle(e, c),
{
    if is_alias_cycle(e, c) {
        assert forall|k: int| 0 <= k < c.len() implies rank[#[trigger] c[k]] <= rank[c[0]] - k by {
            lemma_rank_descends(e, rank, c, k);
        }
        assert(alias_edge(e, c[c.len() - 1], c[0]));
    }
}

proof fn lemma_rank_descends(e: Seq<(String, AliasEntry)>, rank: Seq<int>, c: Seq<int>, k: int)
    requires
        alias_ranking(e, rank),
        is_alias_cycle(e, c),
        0 <= k < c.len(),
    ensures
        rank[c[k]] <= rank[c[0]] - k,
    decreases k,
{
    if k > 0 {
        lemma_rank_descends(e, rank, c, k - 1);
        let j = k - 1;
        assert(alias_edge(e, c[j], c[j + 1]));
    }
}

/// The number of unvisited nodes.
pub open spec fn count_white(color: Seq<u8>) -> nat
    decreases color.len(),
{
    if color.len() == 0 {
        0
    } else {
        count_white(color.drop_last()) + if color.last() == 0 { 1nat } else { 0nat }
    }
}

proof fn lemma_count_white_mono(a: Seq<u8>, b: Seq<u8>)
    requires
        a.len() == b.len(),
        forall|i: int| 0 <= i < b.len() && b[i] == 0 ==> a[i] == 0,
    ensures
        count_white(b) <= count_white(a),
    decreases a.len(),
{
    if a.len() > 0 {
        lemma_count_white_mono(a.drop_last(), b.drop_last());
    }
}

proof fn lemma_count_white_drop(a: Seq<u8>, b: Seq<u8>, u: int)
    requires
        a.len() == b.len(),
        0 <= u < a.len(),
        a[u] == 0,
        b[u] != 0,
        forall|i: int| 0 <= i < b.len() && b[i] == 0 ==> a[i] == 0,
    ensures
        count_white(b) < count_white(a),
    decreases a.len(),
{
    if u == a.len() - 1 {
        lemma_count_white_mono(a.drop_last(), b.drop_last());
    } else {
        lemma_count_white_drop(a.drop_last(), b.drop_last(), u);
    }
}

/// The successor lists hold exactly the references between aliases.
pub open spec fn adjacency_of(e: Seq<(String, AliasEntry)>, adj: Seq<Vec<usize>>) -> bool {
    &&& adj.len() == e.len()
    &&& forall|i: int, k: int| 0 <= i < adj.len() && 0 <= k < adj[i]@.len() ==> (#[trigger] adj[i]@[k]) < e.len()
    &&& forall|i: int, j: int| 0 <= i < e.len() && 0 <= j < e.len() ==>
        (#[trigger] alias_edge(e, i, j) <==> adj[i]@.contains(j as usize))
}

/// Each finished node has finished successors, finished before it.
pub open spec fn finished_ok(adj: Seq<Vec<usize>>, color: Seq<u8>, fin: Seq<int>, counter: int) -> bool {
    &&& forall|b: int| 0 <= b < color.len() && #[trigger] color[b] == 2 ==> fin[b] < counter
    &&& forall|b: int, k: int| 0 <= b < color.len() && color[b] == 2 && 0 <= k < adj[b]@.len() ==>
        color[#[trigger] adj[b]@[k] as int] == 2 && fin[adj[b]@[k] as int] < fin[b]
}

/// The nodes in progress are exactly those on the path.
pub open spec fn gray_is_path(color: Seq<u8>, path: Seq<usize>) -> bool {
    &&& color.len() <= usize::MAX
    &&& forall|x: int| 0 <= x < color.len() ==> (#[trigger] color[x] == 1 <==> path.contains(x as usize))
    &&& forall|k: int| 0 <= k < path.len() ==> (#[trigger] path[k]) < color.len()
}

/// Each node of the path refers to the next.
pub open spec fn path_chain(adj: Seq<Vec<usize>>, path: Seq<usize>) -> bool {
    forall|k: int| 0 <= k < path.len() - 1 ==> adj[#[trigger] path[k] as int]@.contains(path[k + 1])
}

/// `c` is a cycle in the successor lists.
pub open spec fn is_adj_cycle(adj: Seq<Vec<usize>>, c: Seq<usize>) -> bool {
    &&& c.len() > 0
    &&& forall|k: int| 0 <= k < c.len() ==> (#[trigger] c[k]) < adj.len()
    &&& forall|k: int| 0 <= k < c.len() - 1 ==> adj[#[trigger] c[k] as int]@.contains(c[k + 1])
    &&& adj[c[c.len() - 1] as int]@.contains(c[0])
}

proof fn lemma_push_gray(adj: Seq<Vec<usize>>, color: Seq<u8>, path: Seq<usize>, u: usize)
    requires
        color.len() == adj.len(),
        u < adj.len(),
        color[u as int] == 0,
        gray_is_path(color, path),
        path_chain(adj, path),
        path.len() > 0 ==> adj[path.last() as int]@.contains(u),
    ensures
        gray_is_path(color.update(u as int, 1), path.push(u)),
        path_chain(adj, path.push(u)),
{
    let c2 = color.update(u as int, 1);
    let p2 = path.push(u);
    assert forall|x: int| 0 <= x < c2.len() implies (#[trigger] c2[x] == 1 <==> p2.contains(x as usize)) by {
        if x == u {
            assert(p2[p2.len() - 1] == u);
        } else {
            assert(c2[x] == color[x]);
            if path.contains(x as usize) {
                let w = choose|w: int| 0 <= w < path.len() && path[w] == x as usize;
                assert(p2[w] == x as usize);
            }
            if p2.contains(x as usize) {
                let w = choose|w: int| 0 <= w < p2.len() && p2[w] == x as usize;
                if w < path.len() {
                    assert(path[w] == x as usize);
                }
            }
        }
    }
    assert forall|k: int| 0 <= k < p2.len() implies (#[trigger] p2[k]) < c2.len() by {
        if k < path.len() {
            assert(p2[k] == path[k]);
        }
    }
    assert forall|k: int| 0 <= k < p2.len() - 1 implies adj[#[trigger] p2[k] as int]@.contains(p2[k + 1]) by {
        if k < path.len() - 1 {
            assert(p2[k] == path[k] && p2[k + 1] == path[k + 1]);
        } else {
            assert(p2[k] == path.last());
        }
    }
}

/// The part of the path from `t` on: a cycle when the path's last node
/// refers to `t`.
fn cycle_from_path(adj: &Vec<Vec<usize>>, path: &Vec<usize>, t: usize) -> (c: Vec<usize>)
    requires
        path_chain(adj@, path@),
        path@.contains(t),
        path@.len() > 0,
        adj@[path@.last() as int]@.contains(t),
        forall|k: int| 0 <= k < path@.len() ==> (#[trigger] path@[k]) < adj@.len(),
    ensures
        is_adj_cycle(adj@, c@),
{
    let mut p: usize = 0;
    while p < path.len() && path[p] != t
        invariant
            p <= path@.len(),
            forall|q: int| 0 <= q < p ==> path@[q] != t,
        decreases path@.len() - p,
    {
        p += 1;
    }
    proof {
        if p == path@.len() {
            let w = choose|w: int| 0 <= w < path@.len() && path@[w] == t;
            assert(path@[w] != t);
        }
    }
    let mut cycle: Vec<usize> = Vec::new();
    let mut q: usize = p;
    while q < path.len()
        invariant
            p < path@.len(),
            p <= q <= path@.len(),
            cycle@ == path@.subrange(p as int, q as int),
        decreases path@.len() - q,
    {
        cycle.push(path[q]);
        assert(path@.subrange(p as int, q + 1) =~= path@.subrange(p as int, q as int).push(path@[q as int]));
        q += 1;
    }
    proof {
        assert(cycle@[0] == t);
        assert(cycle@[cycle@.len() - 1] == path@.last());
        assert forall|kk: int| 0 <= kk < cycle@.len() implies (#[trigger] cycle@[kk]) < adj@.len() by {
            assert(cycle@[kk] == path@[p + kk]);
        }
        assert forall|kk: int| 0 <= kk < cycle@.len() - 1 implies adj@[#[trigger] cycle@[kk] as int]@.contains(cycle@[kk + 1]) by {
            assert(cycle@[kk] == path@[p + kk]);
            assert(cycle@[kk + 1] == path@[p + kk + 1]);
        }
    }
    cycle
}

/// The successor lists only hold nodes of the graph.
pub open spec fn adj_in_range(adj: Seq<Vec<usize>>) -> bool {
    forall|i: int, k: int| 0 <= i < adj.len() && 0 <= k < adj[i]@.len() ==> (#[trigger] adj[i]@[k]) < adj.len()
}

/// What a search from `u` may start from.
#[verifier::opaque]
pub open spec fn dfs_pre(adj: Seq<Vec<usize>>, u: usize, color: Seq<u8>, fin: Seq<int>, counter: int, path: Seq<usize>) -> bool {
    &&& color.len() == adj.len()
    &&& fin.len() == adj.len()
    &&& u < adj.len()
    &&& color[u as int] == 0
    &&& forall|x: int| 0 <= x < color.len() ==> #[trigger] color[x] <= 2
    &&& adj_in_range(adj)
    &&& finished_ok(adj, color, fin, counter)
    &&& gray_is_path(color, path)
    &&& path_chain(adj, path)
    &&& path.len() > 0 ==> adj[path.last() as int]@.contains(u)
}

/// A search from `u` that came back: `u` and all it reaches are finished,
/// what was finished is unchanged, and the path is as before.
#[verifier::opaque]
pub open spec fn dfs_done(
    adj: Seq<Vec<usize>>, u: usize,
    c0: Seq<u8>, f0: Seq<int>, k0: int, p0: Seq<usize>,
    c1: Seq<u8>, f1: Seq<int>, k1: int, p1: Seq<usize>,
) -> bool {
    &&& c1.len() == adj.len()
    &&& f1.len() == adj.len()
    &&& p1 == p0
    &&& c1[u as int] == 2
    &&& forall|x: int| 0 <= x < c1.len() ==> #[trigger] c1[x] <= 2
    &&& forall|x: int| 0 <= x < adj.len() && c0[x] == 2 ==> #[trigger] c1[x] == 2 && f1[x] == f0[x]
    &&& forall|x: int| 0 <= x < adj.len() ==> (#[trigger] c1[x] == 1 <==> c0[x] == 1)
    &&& forall|x: int| 0 <= x < adj.len() && #[trigger] c1[x] == 0 ==> c0[x] == 0
    &&& finished_ok(adj, c1, f1, k1)
    &&& k1 >= k0
}

/// The state while the successors of `u` are scanned, `k` of them done.
#[verifier::opaque]
pub open spec fn scan_inv(
    adj: Seq<Vec<usize>>, u: usize,
    c0: Seq<u8>, f0: Seq<int>, k0: int, p0: Seq<usize>,
    color: Seq<u8>, fin: Seq<int>, counter: int, path: Seq<usize>,
    k: int,
) -> bool {
    &&& u < adj.len()
    &&& adj_in_range(adj)
    &&& color.len() == adj.len()
    &&& fin.len() == adj.len()
    &&& c0.len() == adj.len()
    &&& f0.len() == adj.len()
    &&& 0 <= k <= adj[u as int]@.len()
    &&& path == p0.push(u)
    &&& color[u as int] == 1
    &&& c0[u as int] == 0
    &&& forall|x: int| 0 <= x < color.len() ==> #[trigger] color[x] <= 2
    &&& p0.len() > 0 ==> adj[p0.last() as int]@.contains(u)
    &&& path_chain(adj, path)
    &&& gray_is_path(color, path)
    &&& forall|x: int| 0 <= x < adj.len() && x != u ==> (#[trigger] color[x] == 1 <==> c0[x] == 1)
    &&& forall|x: int| 0 <= x < adj.len() && c0[x] == 2 ==> #[trigger] color[x] == 2 && fin[x] == f0[x]
    &&& forall|x: int| 0 <= x < adj.len() && #[trigger] color[x] == 0 ==> c0[x] == 0
    &&& count_white(color) < count_white(c0)
    &&& finished_ok(adj, color, fin, counter)
    &&& counter >= k0
    &&& forall|j: int| 0 <= j < k ==> color[#[trigger] adj[u as int]@[j] as int] == 2
}

proof fn lemma_scan_start(adj: Seq<Vec<usize>>, u: usize, c0: Seq<u8>, f0: Seq<int>, k0: int, p0: Seq<usize>)
    requires
        dfs_pre(adj, u, c0, f0, k0, p0),
    ensures
        scan_inv(adj, u, c0, f0, k0, p0, c0.update(u as int, 1), f0, k0, p0.push(u), 0),
{
    reveal(dfs_pre);
    reveal(scan_inv);
    lemma_push_gray(adj, c0, p0, u);
    lemma_count_white_drop(c0, c0.update(u as int, 1), u as int);
    let c1 = c0.update(u as int, 1);
    assert forall|b: int, k: int| 0 <= b < c1.len() && c1[b] == 2 && 0 <= k < adj[b]@.len() implies
        c1[#[trigger] adj[b]@[k] as int] == 2 && f0[adj[b]@[k] as int] < f0[b] by {
        assert(c0[b] == 2);
        assert(c0[adj[b]@[k] as int] == 2);
    }
}

proof fn lemma_scan_child_pre(
    adj: Seq<Vec<usize>>, u: usize,
    c0: Seq<u8>, f0: Seq<int>, k0: int, p0: Seq<usize>,
    color: Seq<u8>, fin: Seq<int>, counter: int, path: Seq<usize>,
    k: int,
)
    requires
        scan_inv(adj, u, c0, f0, k0, p0, color, fin, counter, path, k),
        k < adj[u as int]@.len(),
        color[adj[u as int]@[k] as int] == 0,
    ensures
        dfs_pre(adj, adj[u as int]@[k], color, fin, counter, path),
        count_white(color) < count_white(c0),
{
    reveal(dfs_pre);
    reveal(scan_inv);
    assert(path.last() == u);
    assert(adj[u as int]@.contains(adj[u as int]@[k]));
}

proof fn lemma_scan_child_done(
    adj: Seq<Vec<usize>>, u: usize,
    c0: Seq<u8>, f0: Seq<int>, k0: int, p0: Seq<usize>,
    color: Seq<u8>, fin: Seq<int>, counter: int, path: Seq<usize>,
    k: int,
    c1: Seq<u8>, f1: Seq<int>, counter1: int, path1: Seq<usize>,
)
    requires
        scan_inv(adj, u, c0, f0, k0, p0, color, fin, counter, path, k),
        k < adj[u as int]@.len(),
        color[adj[u as int]@[k] as int] == 0,
        dfs_done(adj, adj[u as int]@[k], color, fin, counter, path, c1, f1, counter1, path1),
    ensures
        scan_inv(adj, u, c0, f0, k0, p0, c1, f1, counter1, path1, k + 1),
{
    reveal(dfs_done);
    reveal(scan_inv);
    let t = adj[u as int]@[k];
    lemma_count_white_mono(color, c1);
    assert forall|x: int| 0 <= x < c1.len() implies (#[trigger] c1[x] == 1 <==> path1.contains(x as usize)) by {
        assert(c1[x] == 1 <==> color[x] == 1);
    }
    assert forall|j: int| 0 <= j < k + 1 implies c1[#[trigger] adj[u as int]@[j] as int] == 2 by {
        if j < k {
            assert(color[adj[u as int]@[j] as int] == 2);
        }
    }
    assert forall|x: int| 0 <= x < adj.len() && c0[x] == 2 implies #[trigger] c1[x] == 2 && f1[x] == f0[x] by {
        assert(color[x] == 2 && fin[x] == f0[x]);
    }
    assert forall|x: int| 0 <= x < adj.len() && #[trigger] c1[x] == 0 implies c0[x] == 0 by {
        assert(color[x] == 0);
    }
    assert forall|x: int| 0 <= x < adj.len() && x != u implies (#[trigger] c1[x] == 1 <==> c0[x] == 1) by {
        assert(c1[x] == 1 <==> color[x] == 1);
    }
    assert(c1[u as int] == 1) by {
        assert(color[u as int] == 1);
    }
}

proof fn lemma_scan_finished_child(
    adj: Seq<Vec<usize>>, u: usize,
    c0: Seq<u8>, f0: Seq<int>, k0: int, p0: Seq<usize>,
    color: Seq<u8>, fin: Seq<int>, counter: int, path: Seq<usize>,
    k: int,
)
    requires
        scan_inv(adj, u, c0, f0, k0, p0, color, fin, counter, path, k),
        k < adj[u as int]@.len(),
        color[adj[u as int]@[k] as int] != 0,
        color[adj[u as int]@[k] as int] != 1,
    ensures
        scan_inv(adj, u, c0, f0, k0, p0, color, fin, counter, path, k + 1),
{
    reveal(scan_inv);
    let t = adj[u as int]@[k];
    assert(color[t as int] <= 2);
}

proof fn lemma_scan_gray_child(
    adj: Seq<Vec<usize>>, u: usize,
    c0: Seq<u8>, f0: Seq<int>, k0: int, p0: Seq<usize>,
    color: Seq<u8>, fin: Seq<int>, counter: int, path: Seq<usize>,
    k: int,
)
    requires
        scan_inv(adj, u, c0, f0, k0, p0, color, fin, counter, path, k),
        k < adj[u as int]@.len(),
        color[adj[u as int]@[k] as int] == 1,
    ensures
        path_chain(adj, path),
        path.contains(adj[u as int]@[k]),
        path.len() > 0,
        adj[path.last() as int]@.contains(adj[u as int]@[k]),
        forall|j: int| 0 <= j < path.len() ==> (#[trigger] path[j]) < adj.len(),
{
    reveal(scan_inv);
    let t = adj[u as int]@[k];
    assert(path.last() == u);
    assert(adj[u as int]@.contains(t));
}

proof fn lemma_scan_finish(
    adj: Seq<Vec<usize>>, u: usize,
    c0: Seq<u8>, f0: Seq<int>, k0: int, p0: Seq<usize>,
    color: Seq<u8>, fin: Seq<int>, counter: int, path: Seq<usize>,
)
    requires
        scan_inv(adj, u, c0, f0, k0, p0, color, fin, counter, path, adj[u as int]@.len() as int),
    ensures
        dfs_done(adj, u, c0, f0, k0, p0,
            color.update(u as int, 2), fin.update(u as int, counter), counter + 1, path.drop_last()),
{
    reveal(scan_inv);
    reveal(dfs_done);
    let c1 = color.update(u as int, 2);
    let f1 = fin.update(u as int, counter);
    assert(path.drop_last() =~= p0);
    assert forall|b: int, kk: int| 0 <= b < c1.len() && c1[b] == 2 && 0 <= kk < adj[b]@.len() implies
        c1[#[trigger] adj[b]@[kk] as int] == 2 && f1[adj[b]@[kk] as int] < f1[b] by {
        if b == u {
            assert(color[adj[u as int]@[kk] as int] == 2);
            assert(adj[b]@[kk] != u);
        } else {
            assert(color[b] == 2);
            assert(color[adj[b]@[kk] as int] == 2);
            assert(adj[b]@[kk] != u);
        }
    }
    assert forall|b: int| 0 <= b < c1.len() && #[trigger] c1[b] == 2 implies f1[b] < counter + 1 by {
        if b != u {
            assert(color[b] == 2);
        }
    }
    assert forall|x: int| 0 <= x < adj.len() implies (#[trigger] c1[x] == 1 <==> c0[x] == 1) by {
        if x != u {
            assert(c1[x] == color[x]);
        }
    }
    assert forall|x: int| 0 <= x < adj.len() && c0[x] == 2 implies #[trigger] c1[x] == 2 && f1[x] == f0[x] by {
        assert(x != u);
    }
}

/// The number of times `c` occurs in `s`.
pub open spec fn occurrences(s: Seq<usize>, c: usize) -> nat
    decreases s.len(),
{
    if s.len() == 0 {
        0
    } else {
        occurrences(s.drop_last(), c) + if s.last() == c { 1nat } else { 0nat }
    }
}

/// The number of entries of `s` not yet in `done`.
pub open spec fn count_pending(s: Seq<usize>, done: Seq<usize>) -> nat
    decreases s.len(),
{
    if s.len() == 0 {
        0
    } else {
        count_pending(s.drop_last(), done) + if done.contains(s.last()) { 0nat } else { 1nat }
    }
}

proof fn lemma_pending_push(s: Seq<usize>, done: Seq<usize>, c: usize)
    requires
        !done.contains(c),
    ensures
        count_pending(s, done.push(c)) + occurrences(s, c) == count_pending(s, done),
    decreases s.len(),
{
    if s.len() > 0 {
        lemma_pending_push(s.drop_last(), done, c);
        let x = s.last();
        if done.push(c).contains(x) && !done.contains(x) {
            let w = choose|w: int| 0 <= w < done.push(c).len() && done.push(c)[w] == x;
            if w < done.len() {
                assert(done[w] == x);
            }
        }
        if done.contains(x) {
            let w = choose|w: int| 0 <= w < done.len() && done[w] == x;
            assert(done.push(c)[w] == x);
        }
        if x == c {
            assert(done.push(c)[done.len() as int] == c);
        }
    }
}

proof fn lemma_pending_empty(s: Seq<usize>)
    ensures
        count_pending(s, Seq::empty()) == s.len(),
    decreases s.len(),
{
    if s.len() > 0 {
        lemma_pending_empty(s.drop_last());
    }
}

proof fn lemma_pending_zero(s: Seq<usize>, done: Seq<usize>)
    ensures
        count_pending(s, done) == 0 <==> forall|k: int| 0 <= k < s.len() ==> done.contains(#[trigger] s[k]),
    decreases s.len(),
{
    if s.len() > 0 {
        lemma_pending_zero(s.drop_last(), done);
        if count_pending(s, done) == 0 {
            assert forall|k: int| 0 <= k < s.len() implies done.contains(#[trigger] s[k]) by {
                if k < s.len() - 1 {
                    assert(s.drop_last()[k] == s[k]);
                }
            }
        }
        if forall|k: int| 0 <= k < s.len() ==> done.contains(#[trigger] s[k]) {
            assert forall|k: int| 0 <= k < s.drop_last().len() implies done.contains(#[trigger] s.drop_last()[k]) by {
                assert(s.drop_last()[k] == s[k]);
            }
            assert(done.contains(s[s.len() - 1]));
        }
    }
}

proof fn lemma_occurrences_prefix(s: Seq<usize>, k: int, c: usize)
    requires
        0 <= k < s.len(),
    ensures
        occurrences(s.subrange(0, k + 1), c) == occurrences(s.subrange(0, k), c) + if s[k] == c { 1nat } else { 0nat },
        occurrences(s.subrange(0, k + 1), c) <= occurrences(s, c),
    decreases s.len() - k,
{
    assert(s.subrange(0, k + 1).drop_last() =~= s.subrange(0, k));
    if k + 1 < s.len() {
        lemma_occurrences_prefix(s, k + 1, c);
    } else {
        assert(s.subrange(0, k + 1) =~= s);
    }
}

/// A list of distinct nodes below `n` has at most `n` of them, and with
/// exactly `n` it has them all.
proof fn lemma_distinct_nodes(q: Seq<usize>, n: nat)
    requires
        q.no_duplicates(),
        n <= usize::MAX,
        forall|i: int| 0 <= i < q.len() ==> (#[trigger] q[i]) < n,
    ensures
        q.len() <= n,
        q.len() == n ==> forall|x: usize| x < n ==> q.contains(x),
        q.len() < n ==> exists|x: usize| x < n && !q.contains(x),
{
    let qi = q.map_values(|x: usize| x as int);
    assert(qi.no_duplicates()) by {
        assert forall|i: int, j: int| 0 <= i < qi.len() && 0 <= j < qi.len() && i != j implies qi[i] != qi[j] by {
            assert(q[i] != q[j]);
        }
    }
    qi.unique_seq_to_set();
    let r = vstd::set_lib::set_int_range(0, n as int);
    vstd::set_lib::lemma_int_range(0, n as int);
    assert(qi.to_set().subset_of(r)) by {
        assert forall|x: int| qi.to_set().contains(x) implies r.contains(x) by {
            assert(qi.contains(x));
            let w = choose|w: int| 0 <= w < qi.len() && qi[w] == x;
            assert(q[w] < n);
        }
    }
    vstd::set_lib::lemma_len_subset(qi.to_set(), r);
    if q.len() == n {
        vstd::set_lib::lemma_subset_equality(qi.to_set(), r);
        assert forall|x: usize| x < n implies q.contains(x) by {
            assert(r.contains(x as int));
            assert(qi.to_set().contains(x as int));
            let w = choose|w: int| 0 <= w < qi.len() && qi[w] == x as int;
            assert(q[w] == x);
        }
    }
    if q.len() < n {
        if forall|x: usize| x < n ==> q.contains(x) {
            assert(r.subset_of(qi.to_set())) by {
                assert forall|x: int| r.contains(x) implies qi.to_set().contains(x) by {
                    assert(q.contains(x as usize));
                    let w = choose|w: int| 0 <= w < q.len() && q[w] == x as usize;
                    assert(qi[w] == x);
                }
            }
            vstd::set_lib::lemma_len_subset(r, qi.to_set());
        }
    }
}

/// Among the nodes below `n` that satisfy `f`, one of least rank.
proof fn lemma_least_rank(n: int, rank: Seq<int>, f: spec_fn(int) -> bool) -> (m: int)
    requires
        0 <= n <= rank.len(),
        exists|i: int| 0 <= i < n && #[trigger] f(i),
    ensures
        0 <= m < n,
        f(m),
        forall|j: int| 0 <= j < n && #[trigger] f(j) ==> rank[m] <= rank[j],
    decreases n,
{
    if f(n - 1) && forall|j: int| 0 <= j < n - 1 ==> !#[trigger] f(j) {
        n - 1
    } else {
        let w = choose|i: int| 0 <= i < n && #[trigger] f(i);
        if w == n - 1 {
            assert(exists|i: int| 0 <= i < n - 1 && #[trigger] f(i));
        }
        let m = lemma_least_rank(n - 1, rank, f);
        if f(n - 1) && rank[n - 1] < rank[m] {
            n - 1
        } else {
            m
        }
    }
}

/// Facts that hold throughout the ordering: the queue holds distinct nodes,
/// a node is queued exactly when nothing it refers to is waiting, and each
/// queued node comes after everything it refers to.
#[verifier::opaque]
pub open spec fn kahn_base(adj: Seq<Vec<usize>>, deg: Seq<usize>, queue: Seq<usize>) -> bool {
    &&& adj_in_range(adj)
    &&& adj.len() <= usize::MAX
    &&& deg.len() == adj.len()
    &&& queue.no_duplicates()
    &&& forall|i: int| 0 <= i < queue.len() ==> (#[trigger] queue[i]) < adj.len()
    &&& forall|x: int| 0 <= x < adj.len() ==> (queue.contains(x as usize) <==> #[trigger] deg[x] == 0)
    &&& forall|i: int, k: int| 0 <= i < queue.len() && 0 <= k < adj[queue[i] as int]@.len() ==>
        queue.subrange(0, i).contains(#[trigger] adj[queue[i] as int]@[k])
}

/// Between two nodes taken from the queue: each count is the number of
/// references to nodes not yet taken.
#[verifier::opaque]
pub open spec fn kahn_outer(adj: Seq<Vec<usize>>, deg: Seq<usize>, queue: Seq<usize>, head: int) -> bool {
    &&& kahn_base(adj, deg, queue)
    &&& 0 <= head <= queue.len()
    &&& forall|x: int| 0 <= x < adj.len() ==> #[trigger] deg[x] == count_pending(adj[x]@, queue.subrange(0, head))
}

/// While node `c`, the last one taken, is removed from the counts of nodes
/// below `d`.
#[verifier::opaque]
pub open spec fn kahn_mid(adj: Seq<Vec<usize>>, deg: Seq<usize>, queue: Seq<usize>, head: int, c: usize, d: int) -> bool {
    &&& kahn_base(adj, deg, queue)
    &&& 1 <= head <= queue.len()
    &&& queue[head - 1] == c
    &&& 0 <= d <= adj.len()
    &&& forall|x: int| 0 <= x < d ==> #[trigger] deg[x] == count_pending(adj[x]@, queue.subrange(0, head))
    &&& forall|x: int| d <= x < adj.len() ==> #[trigger] deg[x] == count_pending(adj[x]@, queue.subrange(0, head - 1))
}

/// While the references of node `d` to `c` are counted off, `k` of them
/// looked at.
#[verifier::opaque]
pub open spec fn kahn_row(adj: Seq<Vec<usize>>, deg: Seq<usize>, queue: Seq<usize>, head: int, c: usize, d: int, k: int) -> bool {
    &&& kahn_base(adj, deg, queue)
    &&& 1 <= head <= queue.len()
    &&& queue[head - 1] == c
    &&& 0 <= d < adj.len()
    &&& 0 <= k <= adj[d]@.len()
    &&& forall|x: int| 0 <= x < d ==> #[trigger] deg[x] == count_pending(adj[x]@, queue.subrange(0, head))
    &&& forall|x: int| d < x < adj.len() ==> #[trigger] deg[x] == count_pending(adj[x]@, queue.subrange(0, head - 1))
    &&& deg[d] + occurrences(adj[d]@.subrange(0, k), c) == count_pending(adj[d]@, queue.subrange(0, head - 1))
}

proof fn lemma_kahn_take(adj: Seq<Vec<usize>>, deg: Seq<usize>, queue: Seq<usize>, head: int)
    requires
        kahn_outer(adj, deg, queue, head),
        head < queue.len(),
    ensures
        kahn_mid(adj, deg, queue, head + 1, queue[head], 0),
{
    reveal(kahn_outer);
    reveal(kahn_mid);
    assert(queue.subrange(0, head + 1 - 1) =~= queue.subrange(0, head));
}

proof fn lemma_kahn_row_start(adj: Seq<Vec<usize>>, deg: Seq<usize>, queue: Seq<usize>, head: int, c: usize, d: int)
    requires
        kahn_mid(adj, deg, queue, head, c, d),
        d < adj.len(),
    ensures
        kahn_row(adj, deg, queue, head, c, d, 0),
{
    reveal(kahn_mid);
    reveal(kahn_row);
    assert(adj[d]@.subrange(0, 0) =~= Seq::<usize>::empty());
}

proof fn lemma_kahn_row_end(adj: Seq<Vec<usize>>, deg: Seq<usize>, queue: Seq<usize>, head: int, c: usize, d: int)
    requires
        kahn_row(adj, deg, queue, head, c, d, adj[d]@.len() as int),
    ensures
        kahn_mid(adj, deg, queue, head, c, d + 1),
{
    reveal(kahn_mid);
    reveal(kahn_row);
    reveal(kahn_base);
    let done = queue.subrange(0, head - 1);
    assert(adj[d]@.subrange(0, adj[d]@.len() as int) =~= adj[d]@);
    assert(queue.subrange(0, head) =~= done.push(c));
    assert(!done.contains(c)) by {
        if done.contains(c) {
            let w = choose|w: int| 0 <= w < done.len() && done[w] == c;
            assert(queue[w] == queue[head - 1]);
        }
    }
    lemma_pending_push(adj[d]@, done, c);
}

proof fn lemma_kahn_row_other(adj: Seq<Vec<usize>>, deg: Seq<usize>, queue: Seq<usize>, head: int, c: usize, d: int, k: int)
    requires
        kahn_row(adj, deg, queue, head, c, d, k),
        k < adj[d]@.len(),
        adj[d]@[k] != c,
    ensures
        kahn_row(adj, deg, queue, head, c, d, k + 1),
{
    reveal(kahn_row);
    lemma_occurrences_prefix(adj[d]@, k, c);
}

proof fn lemma_kahn_row_hit(adj: Seq<Vec<usize>>, deg: Seq<usize>, queue: Seq<usize>, head: int, c: usize, d: int, k: int)
    requires
        kahn_row(adj, deg, queue, head, c, d, k),
        k < adj[d]@.len(),
        adj[d]@[k] == c,
    ensures
        deg[d] > 0,
        ({
            let deg1 = deg.update(d, (deg[d] - 1) as usize);
            &&& deg1[d] == 0 ==> !queue.contains(d as usize)
                && kahn_row(adj, deg1, queue.push(d as usize), head, c, d, k + 1)
            &&& deg1[d] != 0 ==> kahn_row(adj, deg1, queue, head, c, d, k + 1)
        }),
{
    reveal(kahn_row);
    reveal(kahn_base);
    let done = queue.subrange(0, head - 1);
    let deg1 = deg.update(d, (deg[d] - 1) as usize);
    assert(!done.contains(c)) by {
        if done.contains(c) {
            let w = choose|w: int| 0 <= w < done.len() && done[w] == c;
            assert(queue[w] == queue[head - 1]);
        }
    }
    lemma_pending_push(adj[d]@, done, c);
    lemma_occurrences_prefix(adj[d]@, k, c);
    assert(deg[d] > 0);
    assert(deg1[d] + occurrences(adj[d]@.subrange(0, k + 1), c) == count_pending(adj[d]@, done));
    assert(queue.contains(d as usize) <==> deg[d] == 0);
    if deg1[d] == 0 {
        let q1 = queue.push(d as usize);
        // Everything `d` refers to has been taken.
        assert(occurrences(adj[d]@, c) == count_pending(adj[d]@, done));
        assert(count_pending(adj[d]@, done.push(c)) == 0);
        lemma_pending_zero(adj[d]@, done.push(c));
        assert(queue.subrange(0, head) =~= done.push(c));
        assert(q1.no_duplicates()) by {
            assert forall|i: int, j: int| 0 <= i < q1.len() && 0 <= j < q1.len() && i != j implies q1[i] != q1[j] by {
                if i < queue.len() && j < queue.len() {
                    assert(q1[i] == queue[i] && q1[j] == queue[j]);
                } else if i == queue.len() {
                    assert(queue[j] == q1[j]);
                    assert(queue.contains(queue[j]));
                } else {
                    assert(queue[i] == q1[i]);
                    assert(queue.contains(queue[i]));
                }
            }
        }
        assert forall|i: int| 0 <= i < q1.len() implies (#[trigger] q1[i]) < adj.len() by {
            if i < queue.len() {
                assert(q1[i] == queue[i]);
            }
        }
        assert forall|x: int| 0 <= x < adj.len() implies (q1.contains(x as usize) <==> #[trigger] deg1[x] == 0) by {
            if x != d {
                assert(deg1[x] == deg[x]);
                if q1.contains(x as usize) {
                    let w = choose|w: int| 0 <= w < q1.len() && q1[w] == x as usize;
                    assert(w < queue.len());
                    assert(queue[w] == x as usize);
                }
                if queue.contains(x as usize) {
                    let w = choose|w: int| 0 <= w < queue.len() && queue[w] == x as usize;
                    assert(q1[w] == x as usize);
                }
            } else {
                assert(q1[queue.len() as int] == d as usize);
            }
        }
        assert forall|i: int, kk: int| 0 <= i < q1.len() && 0 <= kk < adj[q1[i] as int]@.len() implies
            q1.subrange(0, i).contains(#[trigger] adj[q1[i] as int]@[kk]) by {
            if i < queue.len() {
                assert(q1[i] == queue[i]);
                assert(q1.subrange(0, i) =~= queue.subrange(0, i));
            } else {
                assert(q1[i] == d as usize);
                let y = adj[d]@[kk];
                assert(done.push(c).contains(y));
                let w = choose|w: int| 0 <= w < done.push(c).len() && done.push(c)[w] == y;
                assert(queue.subrange(0, head)[w] == y);
                assert(q1.subrange(0, i)[w] == y);
            }
        }
        assert(q1.subrange(0, head) =~= queue.subrange(0, head));
        assert(q1.subrange(0, head - 1) =~= queue.subrange(0, head - 1));
        assert(q1[head - 1] == c);
        reveal(kahn_base);
    } else {
        assert forall|x: int| 0 <= x < adj.len() implies (queue.contains(x as usize) <==> #[trigger] deg1[x] == 0) by {
            if x != d {
                assert(deg1[x] == deg[x]);
            }
        }
    }
}

proof fn lemma_kahn_mid_end(adj: Seq<Vec<usize>>, deg: Seq<usize>, queue: Seq<usize>, head: int, c: usize)
    requires
        kahn_mid(adj, deg, queue, head, c, adj.len() as int),
    ensures
        kahn_outer(adj, deg, queue, head),
{
    reveal(kahn_mid);
    reveal(kahn_outer);
}

/// When the queue is exhausted: with every node queued, the queue is an
/// order in which each node comes after what it refers to; with some node
/// left out, a node left out refers to another one left out.
proof fn lemma_kahn_end(adj: Seq<Vec<usize>>, deg: Seq<usize>, queue: Seq<usize>)
    requires
        kahn_outer(adj, deg, queue, queue.len() as int),
    ensures
        queue.len() <= adj.len(),
        queue.no_duplicates(),
        forall|i: int| 0 <= i < queue.len() ==> (#[trigger] queue[i]) < adj.len(),
        forall|i: int, k: int| 0 <= i < queue.len() && 0 <= k < adj[queue[i] as int]@.len() ==>
            queue.subrange(0, i).contains(#[trigger] adj[queue[i] as int]@[k]),
        queue.len() == adj.len() ==> forall|x: usize| x < adj.len() ==> queue.contains(x),
        queue.len() < adj.len() ==> exists|x: usize| x < adj.len() && !queue.contains(x),
        forall|x: usize| x < adj.len() && !queue.contains(x) ==>
            exists|k: int| 0 <= k < adj[x as int]@.len() && !queue.contains(#[trigger] adj[x as int]@[k]),
{
    reveal(kahn_outer);
    reveal(kahn_base);
    lemma_distinct_nodes(queue, adj.len());
    assert(queue.subrange(0, queue.len() as int) =~= queue);
    assert forall|x: usize| x < adj.len() && !queue.contains(x) implies
        exists|k: int| 0 <= k < adj[x as int]@.len() && !queue.contains(#[trigger] adj[x as int]@[k]) by {
        assert(deg[x as int] != 0);
        lemma_pending_zero(adj[x as int]@, queue);
    }
}

/// Depth-first search from `u`; finds a cycle through the path, or finishes
/// every node reachable from `u`.
fn dfs(
    adj: &Vec<Vec<usize>>,
    u: usize,
    color: &mut Vec<u8>,
    path: &mut Vec<usize>,
    fin: &mut Ghost<Seq<int>>,
    counter: &mut Ghost<int>,
) -> (r: Result<(), Vec<usize>>)
    requires
        dfs_pre(adj@, u, old(color)@, old(fin)@, old(counter)@, old(path)@),
    ensures
        match r {
            Ok(()) => dfs_done(adj@, u, old(color)@, old(fin)@, old(counter)@, old(path)@,
                final(color)@, final(fin)@, final(counter)@, final(path)@),
            Err(c) => is_adj_cycle(adj@, c@),
        },
    decreases count_white(old(color)@),
{
    let ghost c0 = color@;
    let ghost f0 = fin@;
    let ghost k0 = counter@;
    let ghost p0 = path@;
    proof {
        reveal(dfs_pre);
        lemma_scan_start(adj@, u, c0, f0, k0, p0);
    }
    color.set(u, 1);
    path.push(u);
    let succ = &adj[u];
    let mut k: usize = 0;
    while k < succ.len()
        invariant
            *succ == adj@[u as int],
            c0 == old(color)@,
            k <= succ@.len(),
            scan_inv(adj@, u, c0, f0, k0, p0, color@, fin@, counter@, path@, k as int),
        decreases succ@.len() - k,
    {
        proof { reveal(scan_inv); }
        let t = succ[k];
        if color[t] == 0 {
            let ghost cb = color@;
            let ghost fb = fin@;
            let ghost kb = counter@;
            let ghost pb = path@;
            proof { lemma_scan_child_pre(adj@, u, c0, f0, k0, p0, cb, fb, kb, pb, k as int); }
            match dfs(adj, t, color, path, fin, counter) {
                Err(c) => return Err(c),
                Ok(()) => {
                    proof { lemma_scan_child_done(adj@, u, c0, f0, k0, p0, cb, fb, kb, pb, k as int, color@, fin@, counter@, path@); }
                },
            }
        } else if color[t] == 1 {
            // `t` is on the path: the path from `t` on, closed by `u -> t`.
            proof { lemma_scan_gray_child(adj@, u, c0, f0, k0, p0, color@, fin@, counter@, path@, k as int); }
            return Err(cycle_from_path(adj, path, t));
        } else {
            proof { lemma_scan_finished_child(adj@, u, c0, f0, k0, p0, color@, fin@, counter@, path@, k as int); }
        }
        k += 1;
    }
    let ghost cf = color@;
    let ghost ff = fin@;
    let ghost kf = counter@;
    let ghost pf = path@;
    proof {
        lemma_scan_finish(adj@, u, c0, f0, k0, p0, cf, ff, kf, pf);
        reveal(scan_inv);
    }
    color.set(u, 2);
    proof {
        fin@ = fin@.update(u as int, counter@);
        counter@ = counter@ + 1;
    }
    path.pop();
    Ok(())
}

impl AliasGraph {
    /// For each alias, the aliases it refers to, in the order of its
    /// references.
    fn build_adjacency(&self) -> (adj: Vec<Vec<usize>>)
        requires
            self.aliases.wf(),
        ensures
            adjacency_of(self.aliases.entries(), adj@),
            adj_in_range(adj@),
    {
        let entries = self.aliases.as_entries();
        let ghost e = entries@;
        let n = entries.len();
        let mut adj: Vec<Vec<usize>> = Vec::new();
        let mut i: usize = 0;
        while i < n
            invariant
                self.aliases.wf(),
                e == self.aliases.entries(),
                entries@ == e,
                n == e.len(),
                i <= n,
                adj@.len() == i,
                forall|a: int, k: int| 0 <= a < i && 0 <= k < adj@[a]@.len() ==> (#[trigger] adj@[a]@[k]) < n,
                forall|a: int, j: int| 0 <= a < i && 0 <= j < n ==>
                    (#[trigger] alias_edge(e, a, j) <==> adj@[a]@.contains(j as usize)),
            decreases n - i,
        {
            let deps = &entries[i].1.dependencies;
            let mut row: Vec<usize> = Vec::new();
            let mut d: usize = 0;
            while d < deps.len()
                invariant
                    self.aliases.wf(),
                    e == self.aliases.entries(),
                    n == e.len(),
                    i < n,
                    *deps == e[i as int].1.dependencies,
                    d <= deps@.len(),
                    forall|k: int| 0 <= k < row@.len() ==> (#[trigger] row@[k]) < n,
                    forall|j: int| 0 <= j < n ==>
                        (row@.contains(j as usize) <==> #[trigger] strings_view(deps@.subrange(0, d as int)).contains(e[j].0@)),
                decreases deps@.len() - d,
            {
                let found = self.aliases.find(&deps[d]);
                let ghost row0 = row@;
                let ghost sv0 = strings_view(deps@.subrange(0, d as int));
                let ghost sv1 = strings_view(deps@.subrange(0, d + 1));
                proof {
                    assert(sv1 =~= sv0.push(deps@[d as int]@));
                }
                match found {
                    Some(j0) => {
                        row.push(j0);
                        proof {
                            assert forall|j: int| 0 <= j < n implies
                                (row@.contains(j as usize) <==> #[trigger] sv1.contains(e[j].0@)) by {
                                if row@.contains(j as usize) && !row0.contains(j as usize) {
                                    let w = choose|w: int| 0 <= w < row@.len() && row@[w] == j as usize;
                                    if w < row0.len() {
                                        assert(row0[w] == j as usize);
                                    }
                                    assert(sv1[d as int] == e[j].0@);
                                }
                                if row0.contains(j as usize) {
                                    let w = choose|w: int| 0 <= w < row0.len() && row0[w] == j as usize;
                                    assert(row@[w] == j as usize);
                                }
                                if sv0.contains(e[j].0@) {
                                    let w = choose|w: int| 0 <= w < sv0.len() && sv0[w] == e[j].0@;
                                    assert(sv1[w] == e[j].0@);
                                }
                                if sv1.contains(e[j].0@) && !sv0.contains(e[j].0@) {
                                    let w = choose|w: int| 0 <= w < sv1.len() && sv1[w] == e[j].0@;
                                    if w < sv0.len() {
                                        assert(sv0[w] == e[j].0@);
                                    }
                                    assert(deps@[d as int]@ == e[j].0@);
                                    self.aliases.lemma_unique_key(j, e[j].0@);
                                    assert(row@[row0.len() as int] == j0);
                                }
                                if j as usize == j0 {
                                    assert(sv1[d as int] == e[j].0@);
                                }
                            }
                        }
                    },
                    None => {
                        proof {
                            lemma_key_index_from(e, deps@[d as int]@, 0);
                            assert forall|j: int| 0 <= j < n implies
                                (row@.contains(j as usize) <==> #[trigger] sv1.contains(e[j].0@)) by {
                                if sv1.contains(e[j].0@) && !sv0.contains(e[j].0@) {
                                    let w = choose|w: int| 0 <= w < sv1.len() && sv1[w] == e[j].0@;
                                    if w < sv0.len() {
                                        assert(sv0[w] == e[j].0@);
                                    }
                                    assert(deps@[d as int]@ == e[j].0@);
                                }
                                if sv0.contains(e[j].0@) {
                                    let w = choose|w: int| 0 <= w < sv0.len() && sv0[w] == e[j].0@;
                                    assert(sv1[w] == e[j].0@);
                                }
                            }
                        }
                    },
                }
                d += 1;
            }
            proof {
                assert(deps@.subrange(0, deps@.len() as int) =~= deps@);
            }
            let ghost adj0 = adj@;
            adj.push(row);
            proof {
                assert forall|a: int, j: int| 0 <= a < i + 1 && 0 <= j < n implies
                    (#[trigger] alias_edge(e, a, j) <==> adj@[a]@.contains(j as usize)) by {
                    if a < i {
                        assert(adj@[a] == adj0[a]);
                    } else {
                        assert(strings_view(deps@.subrange(0, deps@.len() as int)).contains(e[j].0@) <==> adj@[a]@.contains(j as usize));
                    }
                }
                assert forall|a: int, k: int| 0 <= a < i + 1 && 0 <= k < adj@[a]@.len() implies (#[trigger] adj@[a]@[k]) < n by {
                    if a < i {
                        assert(adj@[a] == adj0[a]);
                    }
                }
            }
            i += 1;
        }
        adj
    }

    /// Looks for a cycle among the aliases. `Ok` exactly when there is none;
    /// a cycle found is reported from its smallest name, with where each of
    /// its members is defined.
    pub fn detect_cycles(&self) -> (r: Result<(), CircularAlias>)
        requires
            self.aliases.wf(),
        ensures
            r is Ok <==> aliases_acyclic(self.aliases.entries()),
            r matches Err(err) ==> exists|c: Seq<int>| {
                &&& is_alias_cycle(self.aliases.entries(), c)
                &&& strings_view(err.chain@) == rotate(cycle_names(self.aliases.entries(), c),
                    first_min_index(cycle_names(self.aliases.entries(), c)))
                &&& places_view(err.places@) == rotate(cycle_places(self.aliases.entries(), c),
                    first_min_index(cycle_names(self.aliases.entries(), c)))
            },
    {
        let ghost e = self.aliases.entries();
        let adj = self.build_adjacency();
        let n = adj.len();
        let mut color: Vec<u8> = Vec::new();
        let mut i: usize = 0;
        while i < n
            invariant
                n == adj@.len(),
                i <= n,
                color@.len() == i,
                forall|x: int| 0 <= x < i ==> #[trigger] color@[x] == 0,
            decreases n - i,
        {
            color.push(0);
            i += 1;
        }
        let mut path: Vec<usize> = Vec::new();
        let mut fin: Ghost<Seq<int>> = Ghost(Seq::new(n as nat, |x: int| 0));
        let mut counter: Ghost<int> = Ghost(0);
        let mut i: usize = 0;
        while i < n
            invariant
                n == adj@.len(),
                adj_in_range(adj@),
                adjacency_of(e, adj@),
                e == self.aliases.entries(),
                self.aliases.wf(),
                i <= n,
                color@.len() == n,
                fin@.len() == n,
                path@.len() == 0,
                forall|x: int| 0 <= x < n ==> #[trigger] color@[x] <= 2 && color@[x] != 1,
                forall|x: int| 0 <= x < i ==> #[trigger] color@[x] == 2,
                finished_ok(adj@, color@, fin@, counter@),
            decreases n - i,
        {
            if color[i] == 0 {
                proof {
                    reveal(dfs_pre);
                    assert(gray_is_path(color@, path@));
                }
                let ghost cb = color@;
                let ghost fb = fin@;
                let ghost kb = counter@;
                let ghost pb = path@;
                match dfs(&adj, i, &mut color, &mut path, &mut fin, &mut counter) {
                    Err(c) => {
                        return Err(self.report_cycle(&adj, c));
                    },
                    Ok(()) => {
                        proof {
                            reveal(dfs_done);
                            assert forall|x: int| 0 <= x < i + 1 implies #[trigger] color@[x] == 2 by {
                                if x < i {
                                    assert(cb[x] == 2);
                                }
                            }
                            assert forall|x: int| 0 <= x < n implies #[trigger] color@[x] <= 2 && color@[x] != 1 by {
                                assert(color@[x] == 1 <==> cb[x] == 1);
                            }
                        }
                    },
                }
            } else {
                proof {
                    assert(color@[i as int] <= 2 && color@[i as int] != 1);
                }
            }
            i += 1;
        }
        proof {
            let rank = fin@;
            assert forall|a: int, b: int| #[trigger] alias_edge(e, a, b) implies rank[b] < rank[a] by {
                assert(adj@[a]@.contains(b as usize));
                let k = choose|k: int| 0 <= k < adj@[a]@.len() && adj@[a]@[k] == b as usize;
                assert(color@[a] == 2);
                assert(color@[adj@[a]@[k] as int] == 2 && fin@[adj@[a]@[k] as int] < fin@[a]);
            }
            assert(alias_ranking(e, rank));
        }
        Ok(())
    }

    /// An order in which the aliases can be resolved: each after the aliases
    /// it refers to, ties taken in name order. `Ok` exactly when there is no
    /// cycle.
    pub fn topological_sort(&self) -> (r: Result<Vec<String>, CircularAlias>)
        requires
            self.aliases.wf(),
        ensures
            r is Ok <==> aliases_acyclic(self.aliases.entries()),
            r matches Ok(sorted) ==> exists|order: Seq<int>| {
                &&& is_resolution_order(self.aliases.entries(), order)
                &&& strings_view(sorted@) == cycle_names(self.aliases.entries(), order)
            },
            r matches Err(err) ==> strings_view(err.chain@) == seq!["<uncaught error>"@] && err.places@.len() == 0,
    {
        let ghost e = self.aliases.entries();
        let adj = self.build_adjacency();
        let n = adj.len();
        let mut deg: Vec<usize> = Vec::new();
        let mut queue: Vec<usize> = Vec::new();
        let mut i: usize = 0;
        while i < n
            invariant
                n == adj@.len(),
                adj_in_range(adj@),
                i <= n,
                deg@.len() == i,
                forall|x: int| 0 <= x < i ==> #[trigger] deg@[x] == adj@[x]@.len(),
                queue@.no_duplicates(),
                forall|j: int| 0 <= j < queue@.len() ==> (#[trigger] queue@[j]) < i,
                forall|x: int| 0 <= x < i ==> (queue@.contains(x as usize) <==> #[trigger] deg@[x] == 0),
                forall|j: int| 0 <= j < queue@.len() ==> adj@[#[trigger] queue@[j] as int]@.len() == 0,
            decreases n - i,
        {
            let len = adj[i].len();
            let ghost q0 = queue@;
            deg.push(len);
            if len == 0 {
                queue.push(i);
                proof {
                    assert forall|a: int, b: int| 0 <= a < queue@.len() && 0 <= b < queue@.len() && a != b implies queue@[a] != queue@[b] by {
                        if a < q0.len() && b < q0.len() {
                        } else if a == q0.len() {
                            assert(q0[b] < i);
                        } else {
                            assert(q0[a] < i);
                        }
                    }
                }
            }
            proof {
                assert forall|x: int| 0 <= x < i + 1 implies (queue@.contains(x as usize) <==> #[trigger] deg@[x] == 0) by {
                    if queue@.contains(x as usize) {
                        let w = choose|w: int| 0 <= w < queue@.len() && queue@[w] == x as usize;
                        if x < i && w < q0.len() {
                            assert(q0[w] == x as usize);
                        }
                        if w == q0.len() {
                            assert(x == i);
                        }
                    }
                    if x < i && q0.contains(x as usize) {
                        let w = choose|w: int| 0 <= w < q0.len() && q0[w] == x as usize;
                        assert(queue@[w] == x as usize);
                    }
                    if x == i && len == 0 {
                        assert(queue@[q0.len() as int] == i);
                    }
                    if x == i && len != 0 && queue@.contains(x as usize) {
                        let w = choose|w: int| 0 <= w < queue@.len() && queue@[w] == x as usize;
                        assert(q0[w] < i);
                    }
                }
            }
            i += 1;
        }
        proof {
            reveal(kahn_outer);
            reveal(kahn_base);
            assert forall|x: int| 0 <= x < n implies #[trigger] deg@[x] == count_pending(adj@[x]@, queue@.subrange(0, 0)) by {
                assert(queue@.subrange(0, 0) =~= Seq::<usize>::empty());
                lemma_pending_empty(adj@[x]@);
            }
            assert forall|a: int, k: int| 0 <= a < queue@.len() && 0 <= k < adj@[queue@[a] as int]@.len() implies
                queue@.subrange(0, a).contains(#[trigger] adj@[queue@[a] as int]@[k]) by {
                assert(adj@[queue@[a] as int]@.len() == 0);
            }
            assert(kahn_outer(adj@, deg@, queue@, 0));
        }
        let mut head: usize = 0;
        while head < queue.len()
            invariant
                n == adj@.len(),
                deg@.len() == n,
                kahn_outer(adj@, deg@, queue@, head as int),
            decreases n - head,
        {
            proof {
                reveal(kahn_outer);
                reveal(kahn_base);
                lemma_distinct_nodes(queue@, n as nat);
            }
            let c = queue[head];
            proof { lemma_kahn_take(adj@, deg@, queue@, head as int); }
            head += 1;
            let mut d: usize = 0;
            while d < n
                invariant
                    n == adj@.len(),
                    deg@.len() == n,
                    d <= n,
                    kahn_mid(adj@, deg@, queue@, head as int, c, d as int),
                decreases n - d,
            {
                proof { lemma_kahn_row_start(adj@, deg@, queue@, head as int, c, d as int); }
                let row = &adj[d];
                let mut k: usize = 0;
                while k < row.len()
                    invariant
                        n == adj@.len(),
                        deg@.len() == n,
                        d < n,
                        *row == adj@[d as int],
                        k <= row@.len(),
                        kahn_row(adj@, deg@, queue@, head as int, c, d as int, k as int),
                    decreases row@.len() - k,
                {
                    if row[k] == c {
                        proof { lemma_kahn_row_hit(adj@, deg@, queue@, head as int, c, d as int, k as int); }
                        let v = deg[d] - 1;
                        deg.set(d, v);
                        if v == 0 {
                            queue.push(d);
                        }
                    } else {
                        proof { lemma_kahn_row_other(adj@, deg@, queue@, head as int, c, d as int, k as int); }
                    }
                    k += 1;
                }
                proof { lemma_kahn_row_end(adj@, deg@, queue@, head as int, c, d as int); }
                d += 1;
            }
            proof {
                lemma_kahn_mid_end(adj@, deg@, queue@, head as int, c);
                reveal(kahn_outer);
                reveal(kahn_base);
                lemma_distinct_nodes(queue@, n as nat);
            }
        }
        proof { lemma_kahn_end(adj@, deg@, queue@); }
        let ghost order = queue@.map_values(|x: usize| x as int);
        if queue.len() != n {
            proof {
                // A node left out refers to one left out; with a ranking, the
                // least ranked node left out could not.
                if aliases_acyclic(e) {
                    let rank = choose|rank: Seq<int>| alias_ranking(e, rank);
                    let f = |x: int| 0 <= x < n && !queue@.contains(x as usize);
                    let x0 = choose|x: usize| x < n && !queue@.contains(x);
                    assert(f(x0 as int));
                    let m = lemma_least_rank(n as int, rank, f);
                    let k = choose|k: int| 0 <= k < adj@[m]@.len() && !queue@.contains(#[trigger] adj@[m]@[k]);
                    let y = adj@[m]@[k];
                    assert(adj@[m]@.contains(y));
                    assert(alias_edge(e, m, y as int));
                    assert(f(y as int));
                }
            }
            let mut chain: Vec<String> = Vec::new();
            chain.push(String::from_str("<uncaught error>"));
            proof {
                assert(strings_view(chain@) =~= seq!["<uncaught error>"@]);
            }
            return Err(CircularAlias { chain, places: Vec::new() });
        }
        let entries = self.aliases.as_entries();
        let mut sorted: Vec<String> = Vec::new();
        let mut p: usize = 0;
        while p < queue.len()
            invariant
                entries@ == e,
                e.len() == n,
                n == adj@.len(),
                queue@.len() == n,
                forall|i: int| 0 <= i < queue@.len() ==> (#[trigger] queue@[i]) < n,
                order == queue@.map_values(|x: usize| x as int),
                p <= queue@.len(),
                strings_view(sorted@) == cycle_names(e, order.subrange(0, p as int)),
            decreases queue@.len() - p,
        {
            let ghost s0 = sorted@;
            sorted.push(entries[queue[p]].0.clone());
            proof {
                assert(order.subrange(0, p + 1) =~= order.subrange(0, p as int).push(queue@[p as int] as int));
                assert(strings_view(sorted@) =~= strings_view(s0).push(e[queue@[p as int] as int].0@));
                assert(cycle_names(e, order.subrange(0, p + 1)) =~= cycle_names(e, order.subrange(0, p as int)).push(e[queue@[p as int] as int].0@));
            }
            p += 1;
        }
        proof {
            assert(order.subrange(0, n as int) =~= order);
            assert(is_resolution_order(e, order)) by {
                assert(order.no_duplicates()) by {
                    assert forall|a: int, b: int| 0 <= a < order.len() && 0 <= b < order.len() && a != b implies order[a] != order[b] by {
                        assert(queue@[a] != queue@[b]);
                    }
                }
                assert forall|a: int, j: int| 0 <= a < order.len() && #[trigger] alias_edge(e, order[a], j) implies
                    exists|b: int| 0 <= b < a && order[b] == j by {
                    let x = queue@[a];
                    assert(adj@[x as int]@.contains(j as usize));
                    let k = choose|k: int| 0 <= k < adj@[x as int]@.len() && adj@[x as int]@[k] == j as usize;
                    assert(queue@.subrange(0, a).contains(adj@[queue@[a] as int]@[k]));
                    let w = choose|w: int| 0 <= w < queue@.subrange(0, a).len() && queue@.subrange(0, a)[w] == j as usize;
                    assert(order[w] == j);
                }
                assert forall|a: int| 0 <= a < order.len() implies 0 <= #[trigger] order[a] < e.len() by {
                    assert(queue@[a] < n);
                }
            }
            lemma_resolution_order_ranks(e, order);
        }
        Ok(sorted)
    }

    /// The report of a cycle found in the successor lists.
    fn report_cycle(&self, adj: &Vec<Vec<usize>>, c: Vec<usize>) -> (err: CircularAlias)
        requires
            self.aliases.wf(),
            adjacency_of(self.aliases.entries(), adj@),
            adj_in_range(adj@),
            is_adj_cycle(adj@, c@),
        ensures
            !aliases_acyclic(self.aliases.entries()),
            exists|cc: Seq<int>| {
                &&& is_alias_cycle(self.aliases.entries(), cc)
                &&& strings_view(err.chain@) == rotate(cycle_names(self.aliases.entries(), cc),
                    first_min_index(cycle_names(self.aliases.entries(), cc)))
                &&& places_view(err.places@) == rotate(cycle_places(self.aliases.entries(), cc),
                    first_min_index(cycle_names(self.aliases.entries(), cc)))
            },
    {
        let ghost e = self.aliases.entries();
        let ghost cc = c@.map_values(|x: usize| x as int);
        let entries = self.aliases.as_entries();
        let mut chain: Vec<String> = Vec::new();
        let mut places: Vec<(Span, String)> = Vec::new();
        let mut k: usize = 0;
        while k < c.len()
            invariant
                entries@ == e,
                e.len() == adj@.len(),
                cc == c@.map_values(|x: usize| x as int),
                forall|kk: int| 0 <= kk < c@.len() ==> (#[trigger] c@[kk]) < adj@.len(),
                k <= c@.len(),
                strings_view(chain@) == cycle_names(e, cc.subrange(0, k as int)),
                places_view(places@) == cycle_places(e, cc.subrange(0, k as int)),
            decreases c@.len() - k,
        {
            let j = c[k];
            let entry = &entries[j];
            let ghost chain0 = chain@;
            let ghost places0 = places@;
            chain.push(entry.0.clone());
            let raw = entry.1.target_type.span.span();
            places.push((Span::new(raw.start, raw.end), entry.1.source.clone()));
            proof {
                assert(*entry == e[j as int]);
                assert(cc[k as int] == j as int);
                assert(cc.subrange(0, k + 1) =~= cc.subrange(0, k as int).push(j as int));
                assert(strings_view(chain@) =~= strings_view(chain0).push(e[j as int].0@));
                assert(places_view(places@) =~= places_view(places0).push((Span::Known(e[j as int].1.target_type.span.spec_raw()), e[j as int].1.source@)));
                assert(cycle_names(e, cc.subrange(0, k + 1)) =~= cycle_names(e, cc.subrange(0, k as int)).push(e[j as int].0@));
                assert(cycle_places(e, cc.subrange(0, k + 1)) =~= cycle_places(e, cc.subrange(0, k as int)).push((Span::Known(e[j as int].1.target_type.span.spec_raw()), e[j as int].1.source@)));
                assert(strings_view(chain@) =~= cycle_names(e, cc.subrange(0, k + 1)));
                assert(places_view(places@) =~= cycle_places(e, cc.subrange(0, k + 1)));
            }
            k += 1;
        }
        proof {
            assert(cc.subrange(0, c@.len() as int) =~= cc);
            assert(is_alias_cycle(e, cc)) by {
                assert forall|kk: int| 0 <= kk < cc.len() - 1 implies alias_edge(e, #[trigger] cc[kk], cc[kk + 1]) by {
                    assert(adj@[c@[kk] as int]@.contains(c@[kk + 1]));
                }
                assert(adj@[c@[c@.len() - 1] as int]@.contains(c@[0]));
            }
            if aliases_acyclic(e) {
                let rank = choose|rank: Seq<int>| alias_ranking(e, rank);
                law_ranked_aliases_have_no_cycle(e, rank, cc);
            }
            lemma_first_min_index(strings_view(chain@));
        }
        let (chain, places) = normalize_cycle(chain, places);
        CircularAlias { chain, places }
    }
}

} // verus!
