//! The dependency graph between type definitions: which types a type's
//! fields need, and whether a cycle among them can end.
use vstd::prelude::*;
use crate::paths::{NamedItemContext, NamedItemContextV};
use crate::toks::{join_segments, strings_view};
use crate::ordmap::Order;
use crate::pathord::{PathV, path_lt, compare_paths, lemma_path_lt_asymmetric, lemma_path_lt_transitive};
use crate::scc::{components_of, groups_of, has_cycle, layering, rows, scc_partition};

verus! {

/// How a field depends on its type.
#[derive(Debug, Clone, Copy, PartialEq, Eq, Structural)]
pub enum EdgeKind {
    /// non-terminating cycles
    Required,
    /// terminates recursion
    Optional,
    /// terminates recursion (empty array)
    Array,
}

impl EdgeKind {
    /// Optional and array fields end a recursion; required ones do not.
    pub fn is_terminating(self) -> (r: bool)
        ensures
            r == (self is Optional || self is Array),
    {
        match self {
            EdgeKind::Optional | EdgeKind::Array => true,
            EdgeKind::Required => false,
        }
    }
}

/// A dependency of a type: the candidate definitions a reference may
/// resolve to, how it is held, and the field path it comes from.
#[derive(Debug)]
pub struct TypeDependency {
    pub target_candidates: Vec<NamedItemContext>,
    pub kind: EdgeKind,
    pub field_path: Vec<String>,
}

impl TypeDependency {
    pub fn with_target(target: NamedItemContext, kind: EdgeKind, field_path: Vec<String>) -> (r: Self)
        ensures
            r.target_candidates@ == seq![target],
            r.kind == kind,
            r.field_path == field_path,
    {
        let mut c = Vec::new();
        c.push(target);
        TypeDependency { target_candidates: c, kind, field_path }
    }

    pub fn with_candidates(candidates: Vec<NamedItemContext>, kind: EdgeKind, field_path: Vec<String>) -> (r: Self)
        ensures
            r.target_candidates == candidates,
            r.kind == kind,
            r.field_path == field_path,
    {
        TypeDependency { target_candidates: candidates, kind, field_path }
    }
}

/// The views of item contexts.
pub open spec fn item_views(v: Seq<NamedItemContext>) -> Seq<NamedItemContextV> {
    v.map_values(|x: NamedItemContext| x@)
}

/// A dependency that may be absent (optional or array) and whose candidates
/// name a member of `members`.
pub open spec fn edge_into(dep: TypeDependency, members: Seq<NamedItemContextV>) -> bool {
    &&& (dep.kind is Optional || dep.kind is Array)
    &&& exists|c: int| 0 <= c < dep.target_candidates@.len() && members.contains(#[trigger] dep.target_candidates@[c]@)
}

/// The dependencies recorded for `member` (none when it has no node).
pub open spec fn deps_of(nodes: Seq<(NamedItemContext, Vec<TypeDependency>)>, member: NamedItemContextV) -> Seq<TypeDependency> {
    match node_index(nodes, member) {
        Some(n) => nodes[n].1@,
        None => Seq::empty(),
    }
}

/// The type `member` is a node whose dependencies hold an edge into `members`
/// that may be absent.
pub open spec fn member_has_terminating_edge(
    nodes: Seq<(NamedItemContext, Vec<TypeDependency>)>,
    members: Seq<NamedItemContextV>,
    member: NamedItemContextV,
) -> bool {
    exists|d: int| 0 <= d < deps_of(nodes, member).len() && #[trigger] edge_into(deps_of(nodes, member)[d], members)
}

/// Some member of the cycle can stop the recursion.
pub open spec fn cycle_has_terminating_edge(
    nodes: Seq<(NamedItemContext, Vec<TypeDependency>)>,
    members: Seq<NamedItemContextV>,
) -> bool {
    exists|t: int| 0 <= t < members.len() && #[trigger] member_has_terminating_edge(nodes, members, members[t])
}

/// Types and their dependencies, one node per type.
#[derive(Debug)]
pub struct TypeDependencyGraph {
    nodes: Vec<(NamedItemContext, Vec<TypeDependency>)>,
}

/// The views of the keys of graph nodes.
pub open spec fn node_keys(nodes: Seq<(NamedItemContext, Vec<TypeDependency>)>) -> Seq<NamedItemContextV> {
    nodes.map_values(|n: (NamedItemContext, Vec<TypeDependency>)| n.0@)
}

/// No type has two nodes.
pub open spec fn unique_keys(keys: Seq<NamedItemContextV>) -> bool {
    forall|i: int, j: int| 0 <= i < j < keys.len() ==> keys[i] != keys[j]
}

/// The first index at or after `i` where `s` holds `x`.
pub open spec fn first_index_from<A>(s: Seq<A>, x: A, i: int) -> Option<int>
    decreases s.len() - i,
{
    if i < 0 || i >= s.len() {
        None
    } else if s[i] == x {
        Some(i)
    } else {
        first_index_from(s, x, i + 1)
    }
}

pub proof fn lemma_first_index_from<A>(s: Seq<A>, x: A, i: int)
    requires
        0 <= i <= s.len(),
    ensures
        first_index_from(s, x, i) matches Some(m) ==> i <= m < s.len() && s[m] == x
            && forall|j: int| i <= j < m ==> s[j] != x,
        first_index_from(s, x, i) is None ==> forall|j: int| i <= j < s.len() ==> s[j] != x,
    decreases s.len() - i,
{
    if i < s.len() && s[i] != x {
        lemma_first_index_from(s, x, i + 1);
    }
}

/// The index of the node of type `t`.
pub open spec fn node_index(nodes: Seq<(NamedItemContext, Vec<TypeDependency>)>, t: NamedItemContextV) -> Option<int> {
    first_index_from(node_keys(nodes), t, 0)
}

/// The candidates of the dependencies (only the required ones, if asked)
/// that are types of the graph, in order.
pub open spec fn successor_views(
    keys: Seq<NamedItemContextV>,
    deps: Seq<TypeDependency>,
    only_required: bool,
) -> Seq<NamedItemContextV>
    decreases deps.len(),
{
    if deps.len() == 0 {
        Seq::empty()
    } else {
        let d = deps.last();
        let mine = if !only_required || d.kind == EdgeKind::Required {
            item_views(d.target_candidates@).filter(|c: NamedItemContextV| keys.contains(c))
        } else {
            Seq::empty()
        };
        successor_views(keys, deps.drop_last(), only_required) + mine
    }
}

/// The path by which items are ordered: package, namespaces, name.
pub open spec fn key_path(v: NamedItemContextV) -> PathV {
    (v.context.package, v.context.namespace, v.name)
}

/// Keys strictly increasing by path.
pub open spec fn sorted_keys(keys: Seq<NamedItemContextV>) -> bool {
    forall|i: int, j: int| 0 <= i < j < keys.len() ==> path_lt(key_path(keys[i]), key_path(keys[j]))
}

pub proof fn lemma_sorted_unique(keys: Seq<NamedItemContextV>)
    requires
        sorted_keys(keys),
    ensures
        unique_keys(keys),
{
    assert forall|i: int, j: int| 0 <= i < j < keys.len() implies keys[i] != keys[j] by {
        lemma_path_lt_asymmetric(key_path(keys[i]), key_path(keys[j]));
    }
}

/// Orders two items by path.
pub fn compare_items(a: &NamedItemContext, b: &NamedItemContext) -> (r: Order)
    ensures
        r is Less <==> path_lt(key_path(a@), key_path(b@)),
        r is Equal <==> a@ == b@,
        r is Greater <==> path_lt(key_path(b@), key_path(a@)),
{
    let r = compare_paths(
        &a.context.package, &a.context.namespace, &a.name.value.0,
        &b.context.package, &b.context.namespace, &b.name.value.0,
    );
    proof {
        crate::pathord::lemma_path_lt_irreflexive(key_path(a@));
        if path_lt(key_path(a@), key_path(b@)) {
            lemma_path_lt_asymmetric(key_path(a@), key_path(b@));
        }
        if path_lt(key_path(b@), key_path(a@)) {
            lemma_path_lt_asymmetric(key_path(b@), key_path(a@));
        }
    }
    r
}

/// `a` is a copy of the key `b`: the same name, with its span, and the
/// same package and namespaces.
pub open spec fn copy_of(a: NamedItemContext, b: NamedItemContext) -> bool {
    &&& a.name == b.name
    &&& a.context.package == b.context.package
    &&& a.context.namespace@ == b.context.namespace@
}

impl TypeDependencyGraph {
    pub closed spec fn nodes(&self) -> Seq<(NamedItemContext, Vec<TypeDependency>)> {
        self.nodes@
    }

    pub closed spec fn wf(&self) -> bool {
        sorted_keys(node_keys(self.nodes@))
    }

    pub open spec fn keys(&self) -> Seq<NamedItemContextV> {
        node_keys(self.nodes())
    }

    /// A well-formed graph holds its types in path order, each once.
    pub proof fn lemma_wf(&self)
        requires
            self.wf(),
        ensures
            sorted_keys(self.keys()),
            unique_keys(self.keys()),
    {
        lemma_sorted_unique(self.keys());
    }

    pub fn new() -> (r: Self)
        ensures
            r.wf(),
            r.nodes().len() == 0,
    {
        TypeDependencyGraph { nodes: Vec::new() }
    }

    fn find(&self, t: &NamedItemContext) -> (r: Option<usize>)
        requires
            self.wf(),
        ensures
            match r {
                Some(i) => i < self.nodes@.len() && self.nodes@[i as int].0@ == t@,
                None => !node_keys(self.nodes@).contains(t@),
            },
    {
        let mut i: usize = 0;
        while i < self.nodes.len()
            invariant
                i <= self.nodes@.len(),
                forall|j: int| 0 <= j < i ==> self.nodes@[j].0@ != t@,
            decreases self.nodes@.len() - i,
        {
            if self.nodes[i].0.same(t) {
                return Some(i);
            }
            i += 1;
        }
        proof {
            if node_keys(self.nodes@).contains(t@) {
                let j = choose|j: int| 0 <= j < node_keys(self.nodes@).len() && node_keys(self.nodes@)[j] == t@;
                assert(self.nodes@[j].0@ == t@);
            }
        }
        None
    }

    /// Records the dependencies of `name`; a type already in the graph keeps
    /// its recorded name and gets the new dependencies, a new one takes its
    /// place in path order.
    pub fn add_type(&mut self, name: NamedItemContext, dependencies: Vec<TypeDependency>)
        requires
            old(self).wf(),
        ensures
            final(self).wf(),
            old(self).keys().contains(name@) ==> exists|i: int| 0 <= i < old(self).nodes().len()
                && old(self).nodes()[i].0@ == name@
                && final(self).nodes() == old(self).nodes().update(i, (old(self).nodes()[i].0, dependencies)),
            !old(self).keys().contains(name@) ==> exists|p: int| 0 <= p <= old(self).nodes().len()
                && final(self).nodes() == old(self).nodes().insert(p, (name, dependencies)),
    {
        let ghost old_nodes = self.nodes@;
        let ghost ks = node_keys(old_nodes);
        let mut p: usize = 0;
        let mut stop = false;
        while !stop && p < self.nodes.len()
            invariant
                self.nodes@ == old_nodes,
                old(self).nodes@ == old_nodes,
                ks == node_keys(old_nodes),
                sorted_keys(ks),
                p <= old_nodes.len(),
                forall|j: int| 0 <= j < p ==> path_lt(key_path(ks[j]), key_path(name@)),
                stop ==> p < old_nodes.len() && path_lt(key_path(name@), key_path(ks[p as int])),
            decreases old_nodes.len() - p, if stop { 0int } else { 1int },
        {
            match compare_items(&self.nodes[p].0, &name) {
                Order::Less => {
                    p += 1;
                },
                Order::Equal => {
                    assert(ks[p as int] == name@);
                    let (k, _) = self.nodes.remove(p);
                    self.nodes.insert(p, (k, dependencies));
                    assert(self.nodes@ =~= old_nodes.update(p as int, (old_nodes[p as int].0, dependencies)));
                    assert(node_keys(self.nodes@) =~= ks);
                    assert(ks.contains(name@));
                    return;
                },
                Order::Greater => {
                    stop = true;
                },
            }
        }
        proof {
            assert forall|j: int| p <= j < ks.len() implies path_lt(key_path(name@), key_path(ks[j])) by {
                if j > p {
                    lemma_path_lt_transitive(key_path(name@), key_path(ks[p as int]), key_path(ks[j]));
                }
            }
            assert(!ks.contains(name@)) by {
                if ks.contains(name@) {
                    let j = choose|j: int| 0 <= j < ks.len() && ks[j] == name@;
                    if j < p {
                        lemma_path_lt_asymmetric(key_path(ks[j]), key_path(name@));
                    } else {
                        lemma_path_lt_asymmetric(key_path(name@), key_path(ks[j]));
                    }
                }
            }
        }
        let ghost nv = name@;
        let ghost entry = (name, dependencies);
        self.nodes.insert(p, (name, dependencies));
        proof {
            assert(self.nodes@ == old_nodes.insert(p as int, entry));
            let nks = node_keys(self.nodes@);
            assert(nks =~= ks.insert(p as int, nv));
            assert forall|i: int, j: int| 0 <= i < j < nks.len() implies path_lt(key_path(nks[i]), key_path(nks[j])) by {
                if j < p {
                    assert(nks[i] == ks[i] && nks[j] == ks[j]);
                } else if j == p {
                    assert(nks[i] == ks[i]);
                } else if i == p {
                    assert(nks[j] == ks[j - 1]);
                } else if i < p {
                    assert(nks[i] == ks[i] && nks[j] == ks[j - 1]);
                } else {
                    assert(nks[i] == ks[i - 1] && nks[j] == ks[j - 1]);
                }
            }
        }
    }

    /// The types of the graph, in path order.
    pub fn type_names(&self) -> (r: Vec<NamedItemContext>)
        ensures
            item_views(r@) == self.keys(),
    {
        let mut out: Vec<NamedItemContext> = Vec::new();
        let mut i: usize = 0;
        while i < self.nodes.len()
            invariant
                i <= self.nodes@.len(),
                item_views(out@) == node_keys(self.nodes@.subrange(0, i as int)),
            decreases self.nodes@.len() - i,
        {
            let k = self.nodes[i].0.duplicate();
            out.push(k);
            assert(node_keys(self.nodes@.subrange(0, i + 1)) =~= node_keys(self.nodes@.subrange(0, i as int)).push(self.nodes@[i as int].0@));
            assert(item_views(out@) =~= node_keys(self.nodes@.subrange(0, i + 1)));
            i += 1;
        }
        assert(self.nodes@.subrange(0, self.nodes@.len() as int) =~= self.nodes@);
        out
    }

    /// The graph types that `item` depends on (only through required
    /// fields when `only_required`), each as recorded in the graph: the
    /// graph's own key, its name with the span of its definition, and its
    /// context.
    pub fn successors(&self, item: &NamedItemContext, only_required: bool) -> (r: Vec<NamedItemContext>)
        requires
            self.wf(),
        ensures
            match node_index(self.nodes(), item@) {
                Some(i) => item_views(r@) == successor_views(self.keys(), self.nodes()[i].1@, only_required),
                None => r@.len() == 0,
            },
            forall|j: int| 0 <= j < r@.len() ==> (node_index(self.nodes(), (#[trigger] r@[j])@) matches Some(k)
                && copy_of(r@[j], self.nodes()[k].0)),
    {
        let mut out: Vec<NamedItemContext> = Vec::new();
        let idx = self.find(item);
        let ghost keys = node_keys(self.nodes@);
        proof { self.lemma_node_index(item@); }
        match idx {
            None => out,
            Some(n) => {
                let deps = &self.nodes[n].1;
                let mut d: usize = 0;
                while d < deps.len()
                    invariant
                        self.wf(),
                        keys == node_keys(self.nodes@),
                        *deps == self.nodes@[n as int].1,
                        d <= deps@.len(),
                        item_views(out@) == successor_views(keys, deps@.subrange(0, d as int), only_required),
                        forall|j: int| 0 <= j < out@.len() ==> (node_index(self.nodes@, (#[trigger] out@[j])@) matches Some(k)
                            && copy_of(out@[j], self.nodes@[k].0)),
                    decreases deps@.len() - d,
                {
                    let dep = &deps[d];
                    let ghost before = item_views(out@);
                    if !only_required || dep.kind == EdgeKind::Required {
                        let cands = &dep.target_candidates;
                        let mut c: usize = 0;
                        while c < cands.len()
                            invariant
                                self.wf(),
                                keys == node_keys(self.nodes@),
                                c <= cands@.len(),
                                item_views(out@) == before + item_views(cands@.subrange(0, c as int)).filter(|x: NamedItemContextV| keys.contains(x)),
                                forall|j: int| 0 <= j < out@.len() ==> (node_index(self.nodes@, (#[trigger] out@[j])@) matches Some(k)
                                    && copy_of(out@[j], self.nodes@[k].0)),
                            decreases cands@.len() - c,
                        {
                            let ghost sub = item_views(cands@.subrange(0, c as int));
                            let ghost sub1 = item_views(cands@.subrange(0, c + 1));
                            assert(sub1 =~= sub.push(cands@[c as int]@));
                            proof { sub.lemma_filter_push(cands@[c as int]@, |x: NamedItemContextV| keys.contains(x)); }
                            match self.find(&cands[c]) {
                                Some(k) => {
                                    let key = self.nodes[k].0.duplicate();
                                    let ghost out_pre = out@;
                                    out.push(key);
                                    proof {
                                        assert(keys[k as int] == cands@[c as int]@);
                                        assert(item_views(out@) =~= item_views(out_pre).push(cands@[c as int]@));
                                        self.lemma_node_index(key@);
                                        assert(self.nodes@[k as int].0@ == key@);
                                        assert forall|j: int| 0 <= j < out@.len() implies (node_index(self.nodes@, (#[trigger] out@[j])@) matches Some(kk)
                                            && copy_of(out@[j], self.nodes@[kk].0)) by {
                                            if j < out_pre.len() {
                                                assert(out@[j] == out_pre[j]);
                                            }
                                        }
                                    }
                                },
                                None => {},
                            }
                            c += 1;
                        }
                        assert(cands@.subrange(0, cands@.len() as int) =~= cands@);
                    }
                    proof {
                        let pre = deps@.subrange(0, d as int);
                        let post = deps@.subrange(0, d + 1);
                        assert(post.drop_last() =~= pre);
                        assert(post.last() == deps@[d as int]);
                    }
                    d += 1;
                }
                assert(deps@.subrange(0, deps@.len() as int) =~= deps@);
                out
            },
        }
    }

    proof fn lemma_node_index(&self, t: NamedItemContextV)
        requires
            self.wf(),
        ensures
            node_index(self.nodes@, t) matches Some(n) ==> 0 <= n < self.nodes@.len() && self.nodes@[n].0@ == t,
            node_index(self.nodes@, t) is None <==> !node_keys(self.nodes@).contains(t),
            forall|n: int| 0 <= n < self.nodes@.len() && #[trigger] self.nodes@[n].0@ == t ==> node_index(self.nodes@, t) == Some(n),
    {
        let ks = node_keys(self.nodes@);
        lemma_sorted_unique(ks);
        lemma_first_index_from(ks, t, 0);
        assert forall|n: int| 0 <= n < self.nodes@.len() && #[trigger] self.nodes@[n].0@ == t implies node_index(self.nodes@, t) == Some(n) by {
            assert(ks[n] == t);
            if let Some(m) = node_index(self.nodes@, t) {
                if m != n {
                    assert(ks[m] == t);
                }
            }
        }
        if node_index(self.nodes@, t) is None && ks.contains(t) {
            let j = choose|j: int| 0 <= j < ks.len() && ks[j] == t;
            assert(ks[j] == t);
        }
        if let Some(m) = node_index(self.nodes@, t) {
            assert(ks[m] == t);
        }
    }

    pub fn all_successors(&self, item: &NamedItemContext) -> (r: Vec<NamedItemContext>)
        requires
            self.wf(),
        ensures
            match node_index(self.nodes(), item@) {
                Some(i) => item_views(r@) == successor_views(self.keys(), self.nodes()[i].1@, false),
                None => r@.len() == 0,
            },
    {
        self.successors(item, false)
    }

    pub fn required_successors(&self, item: &NamedItemContext) -> (r: Vec<NamedItemContext>)
        requires
            self.wf(),
        ensures
            match node_index(self.nodes(), item@) {
                Some(i) => item_views(r@) == successor_views(self.keys(), self.nodes()[i].1@, true),
                None => r@.len() == 0,
            },
    {
        self.successors(item, true)
    }

    /// Whether some type of the cycle has an optional or array dependency on
    /// a type of the cycle: such a cycle can end.
    pub fn has_terminating_edge(&self, cycle: &[NamedItemContext]) -> (r: bool)
        requires
            self.wf(),
        ensures
            r == cycle_has_terminating_edge(self.nodes(), item_views(cycle@)),
    {
        let ghost cv = item_views(cycle@);
        let mut t: usize = 0;
        while t < cycle.len()
            invariant
                self.wf(),
                t <= cycle@.len(),
                cv == item_views(cycle@),
                forall|t2: int| 0 <= t2 < t ==> !#[trigger] member_has_terminating_edge(self.nodes@, cv, cv[t2]),
            decreases cycle@.len() - t,
        {
            match self.find(&cycle[t]) {
                Some(n) => {
                    proof { self.lemma_node_index(cycle@[t as int]@); }
                    let deps = &self.nodes[n].1;
                    let mut d: usize = 0;
                    while d < deps.len()
                        invariant
                            self.wf(),
                            t < cycle@.len(),
                            n < self.nodes@.len(),
                            cv == item_views(cycle@),
                            node_index(self.nodes@, cv[t as int]) == Some(n as int),
                            *deps == self.nodes@[n as int].1,
                            d <= deps@.len(),
                            forall|d2: int| 0 <= d2 < d ==> !#[trigger] edge_into(deps@[d2], cv),
                        decreases deps@.len() - d,
                    {
                        let dep = &deps[d];
                        if dep.kind.is_terminating() {
                            let cands = &dep.target_candidates;
                            let mut c: usize = 0;
                            while c < cands.len()
                                invariant
                                    self.wf(),
                                    t < cycle@.len(),
                                    n < self.nodes@.len(),
                                    node_index(self.nodes@, cv[t as int]) == Some(n as int),
                                    *deps == self.nodes@[n as int].1,
                                    d < deps@.len(),
                                    *cands == deps@[d as int].target_candidates,
                                    deps@[d as int].kind is Optional || deps@[d as int].kind is Array,
                                    c <= cands@.len(),
                                    cv == item_views(cycle@),
                                    forall|c2: int| 0 <= c2 < c ==> !cv.contains(#[trigger] cands@[c2]@),
                                decreases cands@.len() - c,
                            {
                                let mut m: usize = 0;
                                while m < cycle.len()
                                    invariant
                                        self.wf(),
                                        t < cycle@.len(),
                                        n < self.nodes@.len(),
                                        node_index(self.nodes@, cv[t as int]) == Some(n as int),
                                        *deps == self.nodes@[n as int].1,
                                        d < deps@.len(),
                                        *cands == deps@[d as int].target_candidates,
                                        deps@[d as int].kind is Optional || deps@[d as int].kind is Array,
                                        c < cands@.len(),
                                        m <= cycle@.len(),
                                        cv == item_views(cycle@),
                                        forall|m2: int| 0 <= m2 < m ==> cv[m2] != cands@[c as int]@,
                                    decreases cycle@.len() - m,
                                {
                                    if cycle[m].same(&cands[c]) {
                                        proof {
                                            assert(cv[m as int] == cands@[c as int]@);
                                            assert(cv.contains(cands@[c as int]@));
                                            assert(edge_into(deps@[d as int], cv));
                                            assert(deps_of(self.nodes@, cv[t as int]) == deps@);
                                            assert(member_has_terminating_edge(self.nodes@, cv, cv[t as int]));
                                        }
                                        return true;
                                    }
                                    m += 1;
                                }
                                c += 1;
                            }
                            proof {
                                assert(!edge_into(deps@[d as int], cv));
                            }
                        }
                        d += 1;
                    }
                },
                None => {
                    proof { self.lemma_node_index(cv[t as int]); }
                },
            }
            t += 1;
        }
        proof {
            assert forall|t2: int| 0 <= t2 < cv.len() implies !member_has_terminating_edge(self.nodes@, cv, #[trigger] cv[t2]) by {}
        }
        false
    }

    /// The dependencies recorded for `item`.
    pub fn get_node(&self, item: &NamedItemContext) -> (r: Option<&Vec<TypeDependency>>)
        requires
            self.wf(),
        ensures
            match node_index(self.nodes(), item@) {
                Some(i) => r == Some(&self.nodes()[i].1),
                None => r is None,
            },
    {
        proof { self.lemma_node_index(item@); }
        match self.find(item) {
            Some(i) => Some(&self.nodes[i].1),
            None => None,
        }
    }
}

/// The texts of the items, each its path joined by `::`.
pub open spec fn items_text(items: Seq<NamedItemContext>) -> Seq<Seq<char>> {
    items.map_values(|c: NamedItemContext| join_segments(seq![c@.context.package] + c@.context.namespace + seq![c@.name]))
}

/// Component `i` is a cycle of more than one type that nothing lets end.
pub open spec fn stuck_component(nodes: Seq<(NamedItemContext, Vec<TypeDependency>)>, components: Seq<Vec<NamedItemContext>>, i: int) -> bool {
    &&& 0 <= i < components.len()
    &&& components[i]@.len() > 1
    &&& !cycle_has_terminating_edge(nodes, item_views(components[i]@))
}

/// Checks the strongly connected components of the required dependencies:
/// a component of more than one type with no optional or array dependency
/// among its types can never be built, and the first such component is
/// reported by the paths of its types.
pub fn check_type_cycles(graph: &TypeDependencyGraph, components: &Vec<Vec<NamedItemContext>>) -> (r: Result<(), Vec<String>>)
    requires
        graph.wf(),
    ensures
        match r {
            Ok(()) => forall|i: int| !#[trigger] stuck_component(graph.nodes(), components@, i),
            Err(names) => exists|i: int| {
                &&& #[trigger] stuck_component(graph.nodes(), components@, i)
                &&& forall|j: int| 0 <= j < i ==> !#[trigger] stuck_component(graph.nodes(), components@, j)
                &&& strings_view(names@) == items_text(components@[i]@)
            },
        },
{
    let mut i: usize = 0;
    while i < components.len()
        invariant
            graph.wf(),
            i <= components@.len(),
            forall|j: int| 0 <= j < i ==> !#[trigger] stuck_component(graph.nodes(), components@, j),
        decreases components@.len() - i,
    {
        let comp = &components[i];
        if comp.len() > 1 && !graph.has_terminating_edge(comp.as_slice()) {
            let mut names: Vec<String> = Vec::new();
            let mut k: usize = 0;
            while k < comp.len()
                invariant
                    k <= comp@.len(),
                    strings_view(names@) == items_text(comp@).take(k as int),
                decreases comp@.len() - k,
            {
                let ghost before = strings_view(names@);
                let d = comp[k].display();
                assert(d@ == items_text(comp@)[k as int]);
                names.push(d);
                assert(strings_view(names@) =~= before.push(d@));
                assert(items_text(comp@).take(k + 1) =~= items_text(comp@).take(k as int).push(items_text(comp@)[k as int]));
                assert(strings_view(names@) =~= items_text(comp@).take(k + 1));
                k += 1;
            }
            assert(items_text(comp@).take(k as int) =~= items_text(comp@));
            assert(stuck_component(graph.nodes(), components@, i as int));
            return Err(names);
        }
        i += 1;
    }
    assert forall|j: int| !#[trigger] stuck_component(graph.nodes(), components@, j) by {
        if 0 <= j < i {
        }
    }
    Ok(())
}

/// `adj` gives, for the type at each index of `graph`, the indices of the
/// types it depends on (only through required fields when `only_required`),
/// in the order of `successors`.
pub open spec fn graph_edges(graph: TypeDependencyGraph, adj: Seq<Seq<usize>>, only_required: bool) -> bool {
    &&& adj.len() == graph.nodes().len()
    &&& forall|i: int, j: int| 0 <= i < adj.len() && 0 <= j < adj[i].len() ==> #[trigger] adj[i][j] < adj.len()
    &&& forall|i: int| 0 <= i < adj.len() ==> (#[trigger] adj[i]).map_values(|x: usize| graph.keys()[x as int])
        == successor_views(graph.keys(), graph.nodes()[i].1@, only_required)
}

/// `comps` are the strongly connected components of the required
/// dependencies of `graph`, each type by a copy of its key.
pub open spec fn type_components(graph: TypeDependencyGraph, comps: Seq<Vec<NamedItemContext>>) -> bool {
    exists|adj: Seq<Seq<usize>>, idx: Seq<Seq<usize>>| #![trigger graph_edges(graph, adj, true), scc_partition(adj, idx)] {
        &&& graph_edges(graph, adj, true)
        &&& scc_partition(adj, idx)
        &&& idx.len() == comps.len()
        &&& forall|c: int| 0 <= c < comps.len() ==> (#[trigger] comps[c])@.len() == idx[c].len()
        &&& forall|c: int, j: int| 0 <= c < comps.len() && 0 <= j < idx[c].len()
            ==> copy_of(#[trigger] comps[c]@[j], graph.nodes()[idx[c][j] as int].0)
    }
}

/// What checking the components `comps` gives: success when none of them
/// is stuck, else the paths of the types of the first that is.
pub open spec fn cycles_outcome(nodes: Seq<(NamedItemContext, Vec<TypeDependency>)>, comps: Seq<Vec<NamedItemContext>>, r: Result<(), Vec<String>>) -> bool {
    match r {
        Ok(()) => forall|i: int| !#[trigger] stuck_component(nodes, comps, i),
        Err(names) => exists|i: int| {
            &&& #[trigger] stuck_component(nodes, comps, i)
            &&& forall|j: int| 0 <= j < i ==> !#[trigger] stuck_component(nodes, comps, j)
            &&& strings_view(names@) == items_text(comps[i]@)
        },
    }
}

impl TypeDependencyGraph {
    /// For the type at each index, the indices of the types it depends on
    /// (only through required fields when `only_required`).
    pub fn adjacency(&self, only_required: bool) -> (adj: Vec<Vec<usize>>)
        requires
            self.wf(),
        ensures
            graph_edges(*self, rows(adj@), only_required),
    {
        let ghost keys = self.keys();
        let mut adj: Vec<Vec<usize>> = Vec::new();
        let mut i: usize = 0;
        while i < self.nodes.len()
            invariant
                self.wf(),
                keys == self.keys(),
                i <= self.nodes@.len(),
                adj@.len() == i,
                forall|a: int, j: int| 0 <= a < i && 0 <= j < adj@[a]@.len() ==> #[trigger] adj@[a]@[j] < self.nodes@.len(),
                forall|a: int| 0 <= a < i ==> (#[trigger] adj@[a])@.map_values(|x: usize| keys[x as int])
                    == successor_views(keys, self.nodes@[a].1@, only_required),
            decreases self.nodes@.len() - i,
        {
            let succ = self.successors(&self.nodes[i].0, only_required);
            proof {
                self.lemma_node_index(self.nodes@[i as int].0@);
            }
            let mut row: Vec<usize> = Vec::new();
            let mut j: usize = 0;
            while j < succ.len()
                invariant
                    self.wf(),
                    keys == self.keys(),
                    j <= succ@.len(),
                    row@.len() == j,
                    forall|x: int| 0 <= x < j ==> #[trigger] row@[x] < self.nodes@.len() && keys[row@[x] as int] == succ@[x]@,
                    forall|x: int| 0 <= x < succ@.len() ==> (node_index(self.nodes@, (#[trigger] succ@[x])@) matches Some(k)
                        && copy_of(succ@[x], self.nodes@[k].0)),
                decreases succ@.len() - j,
            {
                proof {
                    self.lemma_node_index(succ@[j as int]@);
                }
                match self.find(&succ[j]) {
                    Some(k) => {
                        row.push(k);
                    },
                    None => {
                        proof {
                            let k = node_index(self.nodes@, succ@[j as int]@)->0;
                            assert(node_keys(self.nodes@)[k] == succ@[j as int]@);
                        }
                        row.push(0);
                    },
                }
                j += 1;
            }
            proof {
                assert(row@.map_values(|x: usize| keys[x as int]) =~= item_views(succ@));
            }
            let ghost pre = adj@;
            adj.push(row);
            proof {
                assert forall|a: int| 0 <= a < i + 1 implies (#[trigger] adj@[a])@.map_values(|x: usize| keys[x as int])
                    == successor_views(keys, self.nodes@[a].1@, only_required) by {
                    if a < i {
                        assert(adj@[a] == pre[a]);
                    }
                }
                assert forall|a: int, j2: int| 0 <= a < i + 1 && 0 <= j2 < adj@[a]@.len() implies #[trigger] adj@[a]@[j2] < self.nodes@.len() by {
                    if a < i {
                        assert(adj@[a] == pre[a]);
                    }
                }
            }
            i += 1;
        }
        proof {
            assert(rows(adj@).len() == self.nodes().len());
            assert forall|a: int| 0 <= a < rows(adj@).len() implies (#[trigger] rows(adj@)[a]).map_values(|x: usize| self.keys()[x as int])
                == successor_views(self.keys(), self.nodes()[a].1@, only_required) by {
                assert(rows(adj@)[a] == adj@[a]@);
            }
            assert forall|a: int, j2: int| 0 <= a < rows(adj@).len() && 0 <= j2 < rows(adj@)[a].len() implies #[trigger] rows(adj@)[a][j2] < rows(adj@).len() by {
                assert(rows(adj@)[a] == adj@[a]@);
            }
        }
        adj
    }

    /// The key of the type at index `i`, copied.
    fn key_at(&self, i: usize) -> (r: NamedItemContext)
        requires
            i < self.nodes().len(),
        ensures
            copy_of(r, self.nodes()[i as int].0),
    {
        self.nodes[i].0.duplicate()
    }

    /// The keys of the types at the indices `idx`, group by group.
    fn keys_of_groups(&self, idx: &Vec<Vec<usize>>) -> (r: Vec<Vec<NamedItemContext>>)
        requires
            forall|c: int, j: int| 0 <= c < idx@.len() && 0 <= j < idx@[c]@.len() ==> #[trigger] idx@[c]@[j] < self.nodes().len(),
        ensures
            r@.len() == idx@.len(),
            forall|c: int| 0 <= c < r@.len() ==> (#[trigger] r@[c])@.len() == rows(idx@)[c].len(),
            forall|c: int, j: int| 0 <= c < r@.len() && 0 <= j < rows(idx@)[c].len()
                ==> copy_of(#[trigger] r@[c]@[j], self.nodes()[rows(idx@)[c][j] as int].0),
    {
        let ghost iv = rows(idx@);
        let mut comps: Vec<Vec<NamedItemContext>> = Vec::new();
        let mut c: usize = 0;
        while c < idx.len()
            invariant
                iv == rows(idx@),
                forall|a: int, j: int| 0 <= a < idx@.len() && 0 <= j < idx@[a]@.len() ==> #[trigger] idx@[a]@[j] < self.nodes().len(),
                c <= idx@.len(),
                comps@.len() == c,
                forall|a: int| 0 <= a < c ==> (#[trigger] comps@[a])@.len() == iv[a].len(),
                forall|a: int, j: int| 0 <= a < c && 0 <= j < iv[a].len() ==> copy_of(#[trigger] comps@[a]@[j], self.nodes()[iv[a][j] as int].0),
            decreases idx@.len() - c,
        {
            let row = &idx[c];
            assert(iv[c as int] == row@);
            let mut comp: Vec<NamedItemContext> = Vec::new();
            let mut j: usize = 0;
            while j < row.len()
                invariant
                    iv == rows(idx@),
                    forall|a: int, j2: int| 0 <= a < idx@.len() && 0 <= j2 < idx@[a]@.len() ==> #[trigger] idx@[a]@[j2] < self.nodes().len(),
                    c < idx@.len(),
                    *row == idx@[c as int],
                    iv[c as int] == row@,
                    j <= row@.len(),
                    comp@.len() == j,
                    forall|x: int| 0 <= x < j ==> copy_of(#[trigger] comp@[x], self.nodes()[iv[c as int][x] as int].0),
                decreases row@.len() - j,
            {
                assert(idx@[c as int]@[j as int] < self.nodes().len());
                let k = self.key_at(row[j]);
                comp.push(k);
                j += 1;
            }
            let ghost pre = comps@;
            comps.push(comp);
            proof {
                assert forall|a: int| 0 <= a < c + 1 implies (#[trigger] comps@[a])@.len() == iv[a].len() by {
                    if a < c {
                        assert(comps@[a] == pre[a]);
                    }
                }
                assert forall|a: int, j2: int| 0 <= a < c + 1 && 0 <= j2 < iv[a].len() implies copy_of(#[trigger] comps@[a]@[j2], self.nodes()[iv[a][j2] as int].0) by {
                    if a < c {
                        assert(comps@[a] == pre[a]);
                    }
                }
            }
            c += 1;
        }
        comps
    }
}

/// Finds the strongly connected components of the required dependencies
/// of `graph` and checks them: a component of more than one type with no
/// optional or array dependency among its types can never be built, and
/// the first such component found is reported by the paths of its types.
pub fn detect_type_cycles(graph: &TypeDependencyGraph) -> (r: Result<(), Vec<String>>)
    requires
        graph.wf(),
    ensures
        exists|comps: Seq<Vec<NamedItemContext>>| #[trigger] type_components(*graph, comps) && cycles_outcome(graph.nodes(), comps, r),
{
    let adj = graph.adjacency(true);
    proof {
        assert forall|i: int, j: int| 0 <= i < adj@.len() && 0 <= j < adj@[i]@.len() implies #[trigger] adj@[i]@[j] < adj@.len() by {
            assert(rows(adj@)[i] == adj@[i]@);
        }
    }
    let idx = components_of(&adj);
    proof {
        assert forall|c: int, j: int| 0 <= c < idx@.len() && 0 <= j < idx@[c]@.len() implies #[trigger] idx@[c]@[j] < graph.nodes().len() by {
            assert(rows(idx@)[c] == idx@[c]@);
            assert(rows(idx@)[c][j] < rows(adj@).len());
        }
    }
    let comps = graph.keys_of_groups(&idx);
    let r = check_type_cycles(graph, &comps);
    proof {
        assert(graph_edges(*graph, rows(adj@), true));
        assert(type_components(*graph, comps@));
    }
    r
}

/// Why the types of a namespace cannot be put in an order of registration.
#[derive(Debug)]
pub enum RegistrationOrderError {
    /// These types (by path) require each other in a circle that nothing
    /// lets end.
    TypeCircularDependency { types: Vec<String> },
    /// The dependencies of the types, optional and array ones included, go
    /// round in a circle, so no type of it can come first.
    Unsortable,
}

/// `groups` holds the types of `graph` in layers of their dependencies,
/// each type by a copy of its key.
pub open spec fn type_layers(graph: TypeDependencyGraph, groups: Seq<Vec<NamedItemContext>>) -> bool {
    exists|adj: Seq<Seq<usize>>, idx: Seq<Seq<usize>>| #![trigger graph_edges(graph, adj, false), layering(adj, idx)] {
        &&& graph_edges(graph, adj, false)
        &&& layering(adj, idx)
        &&& idx.len() == groups.len()
        &&& forall|c: int| 0 <= c < groups.len() ==> (#[trigger] groups[c])@.len() == idx[c].len()
        &&& forall|c: int, j: int| 0 <= c < groups.len() && 0 <= j < idx[c].len()
            ==> copy_of(#[trigger] groups[c]@[j], graph.nodes()[idx[c][j] as int].0)
    }
}

/// The dependencies of the types of `graph`, optional and array ones
/// included, go round in a circle.
pub open spec fn dependency_cycle(graph: TypeDependencyGraph) -> bool {
    exists|adj: Seq<Seq<usize>>| #[trigger] graph_edges(graph, adj, false) && has_cycle(adj)
}

/// The order in which the types of `graph` are registered: first the
/// cycles among their required dependencies are checked, as
/// `detect_type_cycles` does; then the types are put in layers along all
/// their dependencies.
pub fn registration_groups(graph: &TypeDependencyGraph) -> (r: Result<Vec<Vec<NamedItemContext>>, RegistrationOrderError>)
    requires
        graph.wf(),
    ensures
        match r {
            Ok(groups) => {
                &&& exists|comps: Seq<Vec<NamedItemContext>>| #[trigger] type_components(*graph, comps) && cycles_outcome(graph.nodes(), comps, Ok(()))
                &&& type_layers(*graph, groups@)
            },
            Err(RegistrationOrderError::TypeCircularDependency { types }) =>
                exists|comps: Seq<Vec<NamedItemContext>>| #[trigger] type_components(*graph, comps) && cycles_outcome(graph.nodes(), comps, Err(types)),
            Err(RegistrationOrderError::Unsortable) => {
                &&& exists|comps: Seq<Vec<NamedItemContext>>| #[trigger] type_components(*graph, comps) && cycles_outcome(graph.nodes(), comps, Ok(()))
                &&& dependency_cycle(*graph)
            },
        },
{
    match detect_type_cycles(graph) {
        Err(types) => {
            return Err(RegistrationOrderError::TypeCircularDependency { types });
        },
        Ok(()) => {},
    }
    let adj = graph.adjacency(false);
    proof {
        assert forall|i: int, j: int| 0 <= i < adj@.len() && 0 <= j < adj@[i]@.len() implies #[trigger] adj@[i]@[j] < adj@.len() by {
            assert(rows(adj@)[i] == adj@[i]@);
        }
    }
    match groups_of(&adj) {
        Err(_) => {
            proof {
                assert(graph_edges(*graph, rows(adj@), false));
            }
            Err(RegistrationOrderError::Unsortable)
        },
        Ok(idx) => {
            proof {
                assert forall|c: int, j: int| 0 <= c < idx@.len() && 0 <= j < idx@[c]@.len() implies #[trigger] idx@[c]@[j] < graph.nodes().len() by {
                    assert(rows(idx@)[c] == idx@[c]@);
                    assert(rows(idx@)[c][j] < rows(adj@).len());
                }
            }
            let groups = graph.keys_of_groups(&idx);
            proof {
                assert(graph_edges(*graph, rows(adj@), false));
                assert(type_layers(*graph, groups@));
            }
            Ok(groups)
        },
    }
}

} // verus!
