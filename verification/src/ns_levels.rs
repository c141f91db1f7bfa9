//! The order in which the namespaces of one schema are processed: by their
//! distance, along imports, from the namespaces that nothing imports.
use vstd::prelude::*;
use crate::common::{FromNamedSource, NamespaceCtx};
use crate::ordmap::{StrMap, key_index};
use crate::paths::{RefContext, RefContextV, RefOrItemContext};
use crate::schema_graph::{max_level, levels_view, opt_view};
use crate::text::str_eq;
use crate::toks::strings_view;

verus! {

/// The context an import names, as `as_ref_context` gives it.
pub open spec fn import_ref(v: RefOrItemContext) -> RefContext {
    match v {
        RefOrItemContext::Ref(c) => c,
        RefOrItemContext::Item(i) => i.context,
    }
}

/// The namespace an import leads to, if any: an import of the same package
/// leads to the namespace of the schema named by its first namespace.
pub open spec fn import_target(entries: Seq<(String, NamespaceCtx)>, package: Seq<char>, rc: RefContextV) -> Seq<int> {
    if rc.package == package && rc.namespace.len() > 0 && key_index(entries, rc.namespace[0]) is Some {
        seq![key_index(entries, rc.namespace[0]).unwrap()]
    } else {
        Seq::empty()
    }
}

/// The namespaces the imports `imps` lead to, in import order.
pub open spec fn import_targets(
    entries: Seq<(String, NamespaceCtx)>,
    package: Seq<char>,
    imps: Seq<FromNamedSource<RefOrItemContext>>,
) -> Seq<int>
    decreases imps.len(),
{
    if imps.len() == 0 {
        Seq::empty()
    } else {
        import_targets(entries, package, imps.drop_last()) + import_target(entries, package, import_ref(imps.last().value)@)
    }
}

/// For each namespace (by index), the namespaces its imports lead to.
pub open spec fn import_edges(entries: Seq<(String, NamespaceCtx)>, package: Seq<char>) -> Seq<Seq<int>> {
    Seq::new(entries.len(), |i: int| import_targets(entries, package, entries[i].1.imports@))
}

/// Some namespace imports namespace `j`.
pub open spec fn imported(adj: Seq<Seq<int>>, j: int) -> bool {
    exists|i: int, k: int| 0 <= i < adj.len() && 0 <= k < adj[i].len() && #[trigger] adj[i][k] == j
}

/// The namespaces the count starts from: those that nothing imports, or
/// all of them when every namespace is imported.
pub open spec fn is_start(adj: Seq<Seq<int>>, j: int) -> bool {
    !imported(adj, j) || forall|x: int| 0 <= x < adj.len() ==> #[trigger] imported(adj, x)
}

pub open spec fn opt_min(a: Option<nat>, b: Option<nat>) -> Option<nat> {
    match (a, b) {
        (None, x) => x,
        (Some(x), None) => Some(x),
        (Some(x), Some(y)) => Some(if x <= y { x } else { y }),
    }
}

/// The least depth under `d` among the namespaces before `i` that import `j`.
pub open spec fn importer_min(adj: Seq<Seq<int>>, d: Seq<Option<nat>>, j: int, i: int) -> Option<nat>
    decreases i,
{
    if i <= 0 {
        None
    } else {
        let rest = importer_min(adj, d, j, i - 1);
        if adj[i - 1].contains(j) {
            opt_min(rest, d[i - 1])
        } else {
            rest
        }
    }
}

/// The depth namespace `j` takes from the depths `d` of the others: 0 for a
/// starting namespace, else one more than the least depth of a namespace
/// importing it, and none when no namespace importing it has one.
pub open spec fn depth_from(adj: Seq<Seq<int>>, d: Seq<Option<nat>>, j: int) -> Option<nat> {
    if is_start(adj, j) {
        Some(0)
    } else {
        match importer_min(adj, d, j, adj.len() as int) {
            Some(m) => Some(m + 1),
            None => None,
        }
    }
}

/// `d` gives each namespace its depth: its distance along imports from the
/// starting namespaces, and none where no chain of imports reaches it.
pub open spec fn is_depth_map(adj: Seq<Seq<int>>, d: Seq<Option<nat>>) -> bool {
    &&& d.len() == adj.len()
    &&& forall|j: int| 0 <= j < adj.len() ==> #[trigger] d[j] == depth_from(adj, d, j)
}

/// The depths of the namespaces (there is exactly one depth map).
pub open spec fn depths(adj: Seq<Seq<int>>) -> Seq<Option<nat>> {
    choose|d: Seq<Option<nat>>| is_depth_map(adj, d)
}

/// The names of the namespaces at depth `v`, in name order.
pub open spec fn names_at_depth(entries: Seq<(String, NamespaceCtx)>, d: Seq<Option<nat>>, v: nat) -> Seq<Seq<char>>
    decreases entries.len(),
{
    if entries.len() == 0 {
        Seq::empty()
    } else {
        names_at_depth(entries.drop_last(), d, v) + if d[entries.len() - 1] == Some(v) {
            seq![entries.last().0@]
        } else {
            Seq::empty()
        }
    }
}

/// The namespaces grouped by depth, from depth 0 to the deepest.
pub open spec fn depth_groups(entries: Seq<(String, NamespaceCtx)>, d: Seq<Option<nat>>) -> Seq<Seq<Seq<char>>> {
    if entries.len() == 0 {
        Seq::empty()
    } else {
        Seq::new(max_level(d) + 1, |v: int| names_at_depth(entries, d, v as nat))
    }
}

proof fn lemma_importer_min(adj: Seq<Seq<int>>, d: Seq<Option<nat>>, j: int, i: int)
    requires
        0 <= i <= adj.len(),
        d.len() == adj.len(),
    ensures
        importer_min(adj, d, j, i) matches Some(m) ==> exists|x: int| 0 <= x < i && adj[x].contains(j) && #[trigger] d[x] == Some(m),
        importer_min(adj, d, j, i) matches Some(m) ==> forall|x: int| 0 <= x < i && adj[x].contains(j) && (#[trigger] d[x]) is Some ==> m <= d[x].unwrap(),
        importer_min(adj, d, j, i) is None ==> forall|x: int| 0 <= x < i && adj[x].contains(j) ==> #[trigger] d[x] is None,
    decreases i,
{
    if i > 0 {
        lemma_importer_min(adj, d, j, i - 1);
    }
}

/// Where `a` gives a depth up to `n`, `b` gives the same depth, and the
/// other way round.
proof fn lemma_same_depths(adj: Seq<Seq<int>>, a: Seq<Option<nat>>, b: Seq<Option<nat>>, n: nat)
    requires
        is_depth_map(adj, a),
        is_depth_map(adj, b),
    ensures
        forall|j: int| 0 <= j < adj.len() && (#[trigger] a[j] matches Some(v) && v <= n) ==> b[j] == a[j],
        forall|j: int| 0 <= j < adj.len() && (#[trigger] b[j] matches Some(v) && v <= n) ==> a[j] == b[j],
    decreases n,
{
    if n > 0 {
        lemma_same_depths(adj, a, b, (n - 1) as nat);
    }
    assert forall|j: int| 0 <= j < adj.len() && (#[trigger] a[j] matches Some(v) && v <= n) implies b[j] == a[j] by {
        lemma_one_depth(adj, a, b, n, j);
    }
    assert forall|j: int| 0 <= j < adj.len() && (#[trigger] b[j] matches Some(v) && v <= n) implies a[j] == b[j] by {
        lemma_one_depth(adj, b, a, n, j);
    }
}

proof fn lemma_one_depth(adj: Seq<Seq<int>>, a: Seq<Option<nat>>, b: Seq<Option<nat>>, n: nat, j: int)
    requires
        is_depth_map(adj, a),
        is_depth_map(adj, b),
        0 <= j < adj.len(),
        a[j] matches Some(v) && v <= n,
        n > 0 ==> forall|x: int| 0 <= x < adj.len() && (#[trigger] a[x] matches Some(v) && v <= n - 1) ==> b[x] == a[x],
        n > 0 ==> forall|x: int| 0 <= x < adj.len() && (#[trigger] b[x] matches Some(v) && v <= n - 1) ==> a[x] == b[x],
    ensures
        b[j] == a[j],
{
    let v = a[j].unwrap();
    assert(a[j] == depth_from(adj, a, j));
    assert(b[j] == depth_from(adj, b, j));
    if !is_start(adj, j) {
        let len = adj.len() as int;
        lemma_importer_min(adj, a, j, len);
        lemma_importer_min(adj, b, j, len);
        let m = importer_min(adj, a, j, len).unwrap();
        let x = choose|x: int| 0 <= x < len && adj[x].contains(j) && #[trigger] a[x] == Some(m);
        assert(b[x] == a[x]);
        let mb = importer_min(adj, b, j, len).unwrap();
        assert(mb <= m);
        let y = choose|y: int| 0 <= y < len && adj[y].contains(j) && #[trigger] b[y] == Some(mb);
        if mb < m {
            assert(a[y] == b[y]);
            assert(m <= mb);
        }
    }
}

/// A graph of imports has at most one depth map.
pub proof fn lemma_depth_map_unique(adj: Seq<Seq<int>>, a: Seq<Option<nat>>, b: Seq<Option<nat>>)
    requires
        is_depth_map(adj, a),
        is_depth_map(adj, b),
    ensures
        a == b,
{
    assert forall|j: int| 0 <= j < adj.len() implies a[j] == b[j] by {
        if let Some(v) = a[j] {
            lemma_same_depths(adj, a, b, v);
        } else if let Some(v) = b[j] {
            lemma_same_depths(adj, a, b, v);
        }
    }
    assert(a =~= b);
}

/// A namespace at depth `v + 1` is imported by one at depth `v`: no depth
/// between 0 and the deepest is left without a namespace.
pub proof fn lemma_depth_has_importer(adj: Seq<Seq<int>>, d: Seq<Option<nat>>, j: int)
    requires
        is_depth_map(adj, d),
        0 <= j < adj.len(),
        d[j] matches Some(v) && v > 0,
    ensures
        exists|x: int| 0 <= x < adj.len() && adj[x].contains(j) && #[trigger] d[x] == Some((d[j].unwrap() - 1) as nat),
{
    assert(d[j] == depth_from(adj, d, j));
    lemma_importer_min(adj, d, j, adj.len() as int);
}

/// Edges with exec indices as edges.
pub open spec fn edges_view(adj: Seq<Vec<usize>>) -> Seq<Seq<int>> {
    adj.map_values(|v: Vec<usize>| v@.map_values(|x: usize| x as int))
}

/// The namespaces that the imports of `imps` lead to.
fn targets_of(package: &String, namespaces: &StrMap<NamespaceCtx>, imps: &Vec<FromNamedSource<RefOrItemContext>>) -> (r: Vec<usize>)
    requires
        namespaces.wf(),
    ensures
        r@.map_values(|x: usize| x as int) == import_targets(namespaces.entries(), package@, imps@),
        forall|k: int| 0 <= k < r@.len() ==> #[trigger] r@[k] < namespaces.entries().len(),
{
    let ghost es = namespaces.entries();
    let mut out: Vec<usize> = Vec::new();
    let mut k: usize = 0;
    while k < imps.len()
        invariant
            namespaces.wf(),
            es == namespaces.entries(),
            k <= imps@.len(),
            out@.map_values(|x: usize| x as int) == import_targets(es, package@, imps@.take(k as int)),
            forall|q: int| 0 <= q < out@.len() ==> #[trigger] out@[q] < es.len(),
        decreases imps@.len() - k,
    {
        let ghost before = out@;
        assert(imps@.take(k + 1).drop_last() =~= imps@.take(k as int));
        assert(imps@.take(k + 1).last() == imps@[k as int]);
        let rc = imps[k].value.as_ref_context();
        assert(import_ref(imps@[k as int].value) == *rc);
        if str_eq(&rc.package, package) && rc.namespace.len() > 0 {
            assert(rc@.namespace[0] == rc.namespace@[0]@);
            match namespaces.find(&rc.namespace[0]) {
                Some(j) => {
                    out.push(j);
                },
                None => {},
            }
        }
        assert(out@.map_values(|x: usize| x as int) =~= before.map_values(|x: usize| x as int) + import_target(es, package@, rc@));
        k += 1;
    }
    assert(imps@.take(k as int) =~= imps@);
    out
}

/// For each namespace, the namespaces its imports lead to.
fn edges_of(package: &String, namespaces: &StrMap<NamespaceCtx>) -> (adj: Vec<Vec<usize>>)
    requires
        namespaces.wf(),
    ensures
        edges_view(adj@) == import_edges(namespaces.entries(), package@),
        forall|x: int, k: int| 0 <= x < adj@.len() && 0 <= k < adj@[x]@.len() ==> #[trigger] adj@[x]@[k] < adj@.len(),
{
    let ghost es = namespaces.entries();
    let entries = namespaces.as_entries();
    let mut adj: Vec<Vec<usize>> = Vec::new();
    let mut i: usize = 0;
    while i < entries.len()
        invariant
            namespaces.wf(),
            es == namespaces.entries(),
            entries@ == es,
            i <= es.len(),
            adj@.len() == i,
            forall|x: int| 0 <= x < i ==> #[trigger] edges_view(adj@)[x] == import_targets(es, package@, es[x].1.imports@),
            forall|x: int, k: int| 0 <= x < i && 0 <= k < adj@[x]@.len() ==> #[trigger] adj@[x]@[k] < es.len(),
        decreases es.len() - i,
    {
        let t = targets_of(package, namespaces, &entries[i].1.imports);
        let ghost before = adj@;
        adj.push(t);
        assert forall|x: int| 0 <= x < i + 1 implies #[trigger] edges_view(adj@)[x] == import_targets(es, package@, es[x].1.imports@) by {
            if x < i {
                assert(adj@[x] == before[x]);
                assert(edges_view(before)[x] == import_targets(es, package@, es[x].1.imports@));
            }
        }
        i += 1;
    }
    assert(edges_view(adj@) =~= import_edges(es, package@));
    adj
}

/// The edge `(x, k)` has been looked at by the time `(i, q)` is reached.
pub open spec fn seen(i: int, q: int, x: int, k: int) -> bool {
    x < i || (x == i && k < q)
}

/// Which namespaces some namespace imports.
fn imported_flags(adj: &Vec<Vec<usize>>) -> (r: Vec<bool>)
    requires
        forall|x: int, k: int| 0 <= x < adj@.len() && 0 <= k < adj@[x]@.len() ==> #[trigger] adj@[x]@[k] < adj@.len(),
    ensures
        r@.len() == adj@.len(),
        forall|j: int| 0 <= j < adj@.len() ==> #[trigger] r@[j] == imported(edges_view(adj@), j),
{
    let ghost a = edges_view(adj@);
    let n = adj.len();
    let mut r: Vec<bool> = Vec::new();
    let mut j: usize = 0;
    while j < n
        invariant
            n == adj@.len(),
            j <= n,
            r@.len() == j,
            forall|y: int| 0 <= y < j ==> !#[trigger] r@[y],
        decreases n - j,
    {
        r.push(false);
        j += 1;
    }
    let mut i: usize = 0;
    while i < n
        invariant
            n == adj@.len(),
            a == edges_view(adj@),
            forall|x: int, k: int| 0 <= x < adj@.len() && 0 <= k < adj@[x]@.len() ==> #[trigger] adj@[x]@[k] < adj@.len(),
            i <= n,
            r@.len() == n,
            forall|y: int| 0 <= y < n ==> (#[trigger] r@[y] <==> exists|x: int, k: int| 0 <= x < i && 0 <= k < a[x].len() && #[trigger] a[x][k] == y),
        decreases n - i,
    {
        let row = &adj[i];
        let mut q: usize = 0;
        while q < row.len()
            invariant
                n == adj@.len(),
                a == edges_view(adj@),
                *row == adj@[i as int],
                forall|x: int, k: int| 0 <= x < adj@.len() && 0 <= k < adj@[x]@.len() ==> #[trigger] adj@[x]@[k] < adj@.len(),
                i < n,
                q <= row@.len(),
                r@.len() == n,
                forall|y: int| 0 <= y < n ==> (#[trigger] r@[y] <==> exists|x: int, k: int| 0 <= x < a.len() && 0 <= k < a[x].len() && seen(i as int, q as int, x, k) && #[trigger] a[x][k] == y),
            decreases row@.len() - q,
        {
            let t = row[q];
            assert(a[i as int][q as int] == t as int);
            r.set(t, true);
            q += 1;
            assert forall|y: int| 0 <= y < n implies (#[trigger] r@[y] <==> exists|x: int, k: int| 0 <= x < a.len() && 0 <= k < a[x].len() && seen(i as int, q as int, x, k) && #[trigger] a[x][k] == y) by {
                if y == t as int {
                    assert(seen(i as int, q as int, i as int, q - 1));
                } else {
                    if exists|x: int, k: int| 0 <= x < a.len() && 0 <= k < a[x].len() && seen(i as int, q as int, x, k) && #[trigger] a[x][k] == y {
                        let (x, k) = choose|x: int, k: int| 0 <= x < a.len() && 0 <= k < a[x].len() && seen(i as int, q as int, x, k) && #[trigger] a[x][k] == y;
                        assert(seen(i as int, (q - 1) as int, x, k));
                    }
                }
            }
        }
        assert forall|y: int| 0 <= y < n implies (#[trigger] r@[y] <==> exists|x: int, k: int| 0 <= x < i + 1 && 0 <= k < a[x].len() && #[trigger] a[x][k] == y) by {
            if exists|x: int, k: int| 0 <= x < i + 1 && 0 <= k < a[x].len() && #[trigger] a[x][k] == y {
                let (x, k) = choose|x: int, k: int| 0 <= x < i + 1 && 0 <= k < a[x].len() && #[trigger] a[x][k] == y;
                assert(seen(i as int, q as int, x, k));
            }
        }
        i += 1;
    }
    r
}

spec fn weight(o: Option<nat>, n: nat) -> nat {
    match o {
        Some(v) => v,
        None => n,
    }
}

/// How far the depths `d` are from settling: each namespace without a depth
/// counts `n`, each other its depth.
spec fn potential(d: Seq<Option<nat>>, n: nat, k: int) -> nat
    decreases k,
{
    if k <= 0 {
        0
    } else {
        potential(d, n, k - 1) + weight(d[k - 1], n)
    }
}

/// The number of namespaces among the first `k` that have a depth.
spec fn count_some(d: Seq<Option<nat>>, k: int) -> int
    decreases k,
{
    if k <= 0 {
        0
    } else {
        count_some(d, k - 1) + if d[k - 1] is Some { 1int } else { 0int }
    }
}

proof fn lemma_update_sums(d: Seq<Option<nat>>, n: nat, j: int, o: Option<nat>, k: int)
    requires
        0 <= j < d.len(),
        0 <= k <= d.len(),
    ensures
        potential(d.update(j, o), n, k) == potential(d, n, k) + if j < k { weight(o, n) - weight(d[j], n) } else { 0 },
        count_some(d.update(j, o), k) == count_some(d, k) + if j < k {
            (if o is Some { 1int } else { 0int }) - (if d[j] is Some { 1int } else { 0int })
        } else {
            0
        },
        0 <= count_some(d, k) <= k,
    decreases k,
{
    if k > 0 {
        lemma_update_sums(d, n, j, o, k - 1);
    }
}

/// Namespaces that start the count have depth 0.
spec fn starts_at_zero(a: Seq<Seq<int>>, dv: Seq<Option<nat>>) -> bool {
    forall|y: int| 0 <= y < a.len() && is_start(a, y) ==> #[trigger] dv[y] == Some(0nat)
}

/// Each other namespace with a depth is imported by one at least one level
/// higher up.
spec fn supported(a: Seq<Seq<int>>, dv: Seq<Option<nat>>) -> bool {
    forall|y: int| 0 <= y < a.len() && !is_start(a, y) && (#[trigger] dv[y]) is Some ==> exists|x: int|
        0 <= x < a.len() && a[x].contains(y) && (#[trigger] dv[x]) is Some && dv[x].unwrap() + 1 <= dv[y].unwrap()
}

/// Depths stay below the number of namespaces that have one.
spec fn bounded(dv: Seq<Option<nat>>) -> bool {
    &&& forall|y: int| 0 <= y < dv.len() && (#[trigger] dv[y]) is Some ==> dv[y].unwrap() < count_some(dv, dv.len() as int)
    &&& count_some(dv, dv.len() as int) <= dv.len()
}

spec fn relax_ok(a: Seq<Seq<int>>, dv: Seq<Option<nat>>) -> bool {
    &&& dv.len() == a.len()
    &&& starts_at_zero(a, dv)
    &&& supported(a, dv)
    &&& bounded(dv)
}

/// The imports of namespace `x` lead, from its depth, nowhere deeper than
/// one level more.
spec fn settled_at(a: Seq<Seq<int>>, dv: Seq<Option<nat>>, x: int, upto: int) -> bool {
    dv[x] is Some ==> forall|k: int| 0 <= k < upto && k < a[x].len() ==> dv[#[trigger] a[x][k]] is Some
        && dv[a[x][k]].unwrap() <= dv[x].unwrap() + 1
}

proof fn lemma_count_bound(d: Seq<Option<nat>>, k: int)
    requires
        0 <= k <= d.len(),
    ensures
        0 <= count_some(d, k) <= k,
    decreases k,
{
    if k > 0 {
        lemma_count_bound(d, k - 1);
    }
}

/// Giving namespace `t`, imported by `x` at depth `u`, the depth `u + 1`
/// where that is better keeps the relaxation sound and lowers the potential.
proof fn lemma_relax_step(a: Seq<Seq<int>>, cur: Seq<Option<nat>>, x: int, u: nat, q: int)
    requires
        relax_ok(a, cur),
        0 <= x < a.len(),
        0 <= q < a[x].len(),
        0 <= a[x][q] < a.len(),
        cur[x] == Some(u),
        cur[a[x][q]] matches Some(w) ==> u + 1 < w,
    ensures
        relax_ok(a, cur.update(a[x][q], Some((u + 1) as nat))),
        potential(cur.update(a[x][q], Some((u + 1) as nat)), a.len() as nat, a.len() as int) < potential(cur, a.len() as nat, a.len() as int),
{
    let n = a.len() as int;
    let t = a[x][q];
    let o: Option<nat> = Some((u + 1) as nat);
    let nw = cur.update(t, o);
    lemma_update_sums(cur, n as nat, t, o, n);
    assert(a[x].contains(t));
    assert(t != x);
    assert(u < count_some(cur, n));
    assert forall|y: int| 0 <= y < n && !is_start(a, y) && (#[trigger] nw[y]) is Some implies exists|x: int|
        0 <= x < n && a[x].contains(y) && (#[trigger] nw[x]) is Some && nw[x].unwrap() + 1 <= nw[y].unwrap() by {
        if y == t {
            assert(nw[x] == cur[x]);
        } else {
            assert(nw[y] == cur[y]);
            let x3 = choose|x3: int| 0 <= x3 < n && a[x3].contains(y) && (#[trigger] cur[x3]) is Some && cur[x3].unwrap() + 1 <= cur[y].unwrap();
            assert(nw[x3] is Some && nw[x3].unwrap() <= cur[x3].unwrap());
        }
    }
    assert forall|y: int| 0 <= y < n && is_start(a, y) implies #[trigger] nw[y] == Some(0nat) by {
        if y == t {
            assert(cur[y] == Some(0nat));
        }
    }
    assert forall|y: int| 0 <= y < nw.len() && (#[trigger] nw[y]) is Some implies nw[y].unwrap() < count_some(nw, nw.len() as int) by {
        if y != t {
            assert(nw[y] == cur[y]);
        }
    }
    lemma_count_bound(nw, n);
}

/// Relaxes the imports of namespace `x`, which has depth `u`.
fn relax_edges(adj: &Vec<Vec<usize>>, d: &mut Vec<Option<usize>>, x: usize, u: usize) -> (changed: bool)
    requires
        relax_ok(edges_view(adj@), levels_view(old(d)@)),
        forall|x: int, k: int| 0 <= x < adj@.len() && 0 <= k < adj@[x]@.len() ==> #[trigger] adj@[x]@[k] < adj@.len(),
        x < adj@.len(),
        levels_view(old(d)@)[x as int] == Some(u as nat),
    ensures
        relax_ok(edges_view(adj@), levels_view(final(d)@)),
        potential(levels_view(final(d)@), adj@.len() as nat, adj@.len() as int) <= potential(levels_view(old(d)@), adj@.len() as nat, adj@.len() as int),
        changed ==> potential(levels_view(final(d)@), adj@.len() as nat, adj@.len() as int) < potential(levels_view(old(d)@), adj@.len() as nat, adj@.len() as int),
        !changed ==> final(d)@ == old(d)@,
        !changed ==> settled_at(edges_view(adj@), levels_view(final(d)@), x as int, adj@[x as int]@.len() as int),
{
    let ghost a = edges_view(adj@);
    let ghost n = adj@.len() as int;
    let ghost p0 = potential(levels_view(d@), n as nat, n);
    let row = &adj[x];
    let nn = adj.len();
    assert(a[x as int].len() == row@.len());
    proof {
        lemma_count_bound(levels_view(d@), n);
        assert(u < count_some(levels_view(d@), n));
    }
    let mut changed = false;
    let mut q: usize = 0;
    while q < row.len()
        invariant
            a == edges_view(adj@),
            n == adj@.len(),
            nn == n,
            *row == adj@[x as int],
            a[x as int].len() == row@.len(),
            forall|x: int, k: int| 0 <= x < adj@.len() && 0 <= k < adj@[x]@.len() ==> #[trigger] adj@[x]@[k] < adj@.len(),
            x < n,
            u < n,
            q <= row@.len(),
            relax_ok(a, levels_view(d@)),
            levels_view(d@)[x as int] == Some(u as nat),
            potential(levels_view(d@), n as nat, n) <= p0,
            changed ==> potential(levels_view(d@), n as nat, n) < p0,
            !changed ==> d@ == old(d)@,
            !changed ==> settled_at(a, levels_view(d@), x as int, q as int),
        decreases row@.len() - q,
    {
        let t = row[q];
        let ghost cur = levels_view(d@);
        assert(a[x as int][q as int] == t as int);
        assert(cur[t as int] == opt_view(d@[t as int]));
        let better = match d[t] {
            None => true,
            Some(w) => u + 1 < w,
        };
        if better {
            proof {
                lemma_relax_step(a, cur, x as int, u as nat, q as int);
            }
            d.set(t, Some(u + 1));
            assert(levels_view(d@) =~= cur.update(t as int, Some((u + 1) as nat)));
            changed = true;
        }
        q += 1;
    }
    changed
}

/// One pass over all namespaces.
fn relax_round(adj: &Vec<Vec<usize>>, d: &mut Vec<Option<usize>>) -> (changed: bool)
    requires
        relax_ok(edges_view(adj@), levels_view(old(d)@)),
        forall|x: int, k: int| 0 <= x < adj@.len() && 0 <= k < adj@[x]@.len() ==> #[trigger] adj@[x]@[k] < adj@.len(),
    ensures
        relax_ok(edges_view(adj@), levels_view(final(d)@)),
        changed ==> potential(levels_view(final(d)@), adj@.len() as nat, adj@.len() as int) < potential(levels_view(old(d)@), adj@.len() as nat, adj@.len() as int),
        !changed ==> final(d)@ == old(d)@,
        !changed ==> forall|x: int| 0 <= x < adj@.len() ==> #[trigger] settled_at(edges_view(adj@), levels_view(final(d)@), x, adj@[x]@.len() as int),
{
    let ghost a = edges_view(adj@);
    let ghost n = adj@.len() as int;
    let ghost p0 = potential(levels_view(d@), n as nat, n);
    let mut changed = false;
    let mut x: usize = 0;
    while x < adj.len()
        invariant
            a == edges_view(adj@),
            n == adj@.len(),
            forall|x: int, k: int| 0 <= x < adj@.len() && 0 <= k < adj@[x]@.len() ==> #[trigger] adj@[x]@[k] < adj@.len(),
            x <= n,
            relax_ok(a, levels_view(d@)),
            potential(levels_view(d@), n as nat, n) <= p0,
            changed ==> potential(levels_view(d@), n as nat, n) < p0,
            !changed ==> d@ == old(d)@,
            !changed ==> forall|x2: int| 0 <= x2 < x ==> #[trigger] settled_at(a, levels_view(d@), x2, adj@[x2]@.len() as int),
        decreases n - x,
    {
        assert(levels_view(d@)[x as int] == opt_view(d@[x as int]));
        if let Some(u) = d[x] {
            let c = relax_edges(adj, d, x, u);
            if c {
                changed = true;
            }
        }
        x += 1;
    }
    changed
}

/// The depth of every namespace: its distance along imports from the
/// namespaces that nothing imports (from every namespace, when each one is
/// imported somewhere), with each import of the same package leading to the
/// namespace named by its first namespace. The result holds one group per
/// depth, from 0 up, each in name order; a namespace that no chain of
/// imports reaches is in no group.
pub fn namespace_levels(package: &String, namespaces: &StrMap<NamespaceCtx>) -> (r: Vec<Vec<String>>)
    requires
        namespaces.wf(),
    ensures
        r@.map_values(|g: Vec<String>| strings_view(g@)) == depth_groups(
            namespaces.entries(),
            depths(import_edges(namespaces.entries(), package@)),
        ),
{
    let ghost es = namespaces.entries();
    let adj = edges_of(package, namespaces);
    let ghost a = edges_view(adj@);
    let mut d = start_depths(&adj);
    let mut done = false;
    while !done
        invariant
            a == edges_view(adj@),
            forall|x: int, k: int| 0 <= x < adj@.len() && 0 <= k < adj@[x]@.len() ==> #[trigger] adj@[x]@[k] < adj@.len(),
            relax_ok(a, levels_view(d@)),
            done ==> forall|x: int| 0 <= x < adj@.len() ==> #[trigger] settled_at(a, levels_view(d@), x, adj@[x]@.len() as int),
        decreases potential(levels_view(d@), adj@.len() as nat, adj@.len() as int), if done { 0int } else { 1int },
    {
        let c = relax_round(&adj, &mut d);
        if !c {
            done = true;
        }
    }
    proof {
        lemma_settled_is_depth_map(a, levels_view(d@));
        lemma_depth_map_unique(a, levels_view(d@), depths(a));
        assert(a == import_edges(es, package@));
        assert forall|y: int| 0 <= y < d@.len() implies (#[trigger] d@[y] matches Some(x) ==> x < d@.len()) by {
            let dv = levels_view(d@);
            assert(dv[y] == opt_view(d@[y]));
            lemma_count_bound(dv, dv.len() as int);
        }
    }
    collect_depth_groups(namespaces, &d)
}

/// Depth 0 for the namespaces the count starts from, none for the others.
fn start_depths(adj: &Vec<Vec<usize>>) -> (d: Vec<Option<usize>>)
    requires
        forall|x: int, k: int| 0 <= x < adj@.len() && 0 <= k < adj@[x]@.len() ==> #[trigger] adj@[x]@[k] < adj@.len(),
    ensures
        relax_ok(edges_view(adj@), levels_view(d@)),
{
    let ghost a = edges_view(adj@);
    let n = adj.len();
    let flags = imported_flags(adj);
    let mut every = true;
    let mut j: usize = 0;
    while j < n
        invariant
            n == adj@.len(),
            a == edges_view(adj@),
            flags@.len() == n,
            forall|y: int| 0 <= y < n ==> #[trigger] flags@[y] == imported(a, y),
            j <= n,
            every == forall|y: int| 0 <= y < j ==> #[trigger] imported(a, y),
        decreases n - j,
    {
        if !flags[j] {
            every = false;
        }
        j += 1;
    }
    let mut d: Vec<Option<usize>> = Vec::new();
    let mut j: usize = 0;
    while j < n
        invariant
            n == adj@.len(),
            a == edges_view(adj@),
            flags@.len() == n,
            forall|y: int| 0 <= y < n ==> #[trigger] flags@[y] == imported(a, y),
            every == forall|y: int| 0 <= y < n ==> #[trigger] imported(a, y),
            j <= n,
            d@.len() == j,
            forall|y: int| 0 <= y < j ==> #[trigger] levels_view(d@)[y] == if is_start(a, y) { Some(0nat) } else { None },
        decreases n - j,
    {
        let ghost before = d@;
        if !flags[j] || every {
            d.push(Some(0));
        } else {
            d.push(None);
        }
        assert forall|y: int| 0 <= y < j + 1 implies #[trigger] levels_view(d@)[y] == if is_start(a, y) { Some(0nat) } else { None } by {
            if y < j {
                assert(d@[y] == before[y]);
                assert(levels_view(before)[y] == opt_view(before[y]));
            }
        }
        j += 1;
    }
    proof {
        let dv = levels_view(d@);
        lemma_count_bound(dv, n as int);
        assert forall|y: int| 0 <= y < dv.len() && (#[trigger] dv[y]) is Some implies dv[y].unwrap() < count_some(dv, dv.len() as int) by {
            lemma_count_positive(dv, y, n as int);
        }
    }
    d
}

/// Depths that no import can improve form the depth map.
proof fn lemma_settled_is_depth_map(a: Seq<Seq<int>>, dv: Seq<Option<nat>>)
    requires
        relax_ok(a, dv),
        forall|x: int| 0 <= x < a.len() ==> #[trigger] settled_at(a, dv, x, a[x].len() as int),
    ensures
        is_depth_map(a, dv),
{
    let n = a.len() as int;
    assert forall|y: int| 0 <= y < a.len() implies #[trigger] dv[y] == depth_from(a, dv, y) by {
        if !is_start(a, y) {
            lemma_importer_min(a, dv, y, n);
            match importer_min(a, dv, y, n) {
                Some(m) => {
                    let x = choose|x: int| 0 <= x < n && a[x].contains(y) && #[trigger] dv[x] == Some(m);
                    let k = choose|k: int| 0 <= k < a[x].len() && a[x][k] == y;
                    assert(settled_at(a, dv, x, a[x].len() as int));
                    assert(dv[a[x][k]] is Some);
                    let x2 = choose|x2: int| 0 <= x2 < n && a[x2].contains(y) && (#[trigger] dv[x2]) is Some && dv[x2].unwrap() + 1 <= dv[y].unwrap();
                    assert(m <= dv[x2].unwrap());
                },
                None => {
                    if dv[y] is Some {
                        let x2 = choose|x2: int| 0 <= x2 < n && a[x2].contains(y) && (#[trigger] dv[x2]) is Some && dv[x2].unwrap() + 1 <= dv[y].unwrap();
                        assert(dv[x2] is None);
                    }
                },
            }
        }
    }
}

proof fn lemma_count_positive(d: Seq<Option<nat>>, y: int, k: int)
    requires
        0 <= y < k <= d.len(),
        d[y] is Some,
    ensures
        count_some(d, k) >= 1,
    decreases k,
{
    if k - 1 > y {
        lemma_count_positive(d, y, k - 1);
    }
    lemma_count_bound(d, k - 1);
}

/// The names of the namespaces at depth `v`, in name order.
fn names_at(namespaces: &StrMap<NamespaceCtx>, d: &Vec<Option<usize>>, v: usize) -> (r: Vec<String>)
    requires
        d@.len() == namespaces.entries().len(),
    ensures
        strings_view(r@) == names_at_depth(namespaces.entries(), levels_view(d@), v as nat),
{
    let ghost es = namespaces.entries();
    let ghost dv = levels_view(d@);
    let entries = namespaces.as_entries();
    let mut out: Vec<String> = Vec::new();
    let mut i: usize = 0;
    while i < entries.len()
        invariant
            es == namespaces.entries(),
            entries@ == es,
            dv == levels_view(d@),
            d@.len() == es.len(),
            i <= es.len(),
            strings_view(out@) == names_at_depth(es.take(i as int), dv, v as nat),
        decreases es.len() - i,
    {
        let ghost before = out@;
        assert(es.take(i + 1).drop_last() =~= es.take(i as int));
        assert(dv[i as int] == opt_view(d@[i as int]));
        if d[i] == Some(v) {
            out.push(entries[i].0.clone());
        }
        assert(strings_view(out@) =~= names_at_depth(es.take(i + 1), dv, v as nat));
        i += 1;
    }
    assert(es.take(i as int) =~= es);
    out
}

/// The groups by depth.
fn collect_depth_groups(namespaces: &StrMap<NamespaceCtx>, d: &Vec<Option<usize>>) -> (r: Vec<Vec<String>>)
    requires
        d@.len() == namespaces.entries().len(),
        forall|y: int| 0 <= y < d@.len() ==> (#[trigger] d@[y] matches Some(x) ==> x < d@.len()),
    ensures
        r@.map_values(|g: Vec<String>| strings_view(g@)) == depth_groups(namespaces.entries(), levels_view(d@)),
{
    let ghost es = namespaces.entries();
    let ghost dv = levels_view(d@);
    let n = d.len();
    if n == 0 {
        let r: Vec<Vec<String>> = Vec::new();
        assert(r@.map_values(|g: Vec<String>| strings_view(g@)) =~= depth_groups(es, dv));
        return r;
    }
    let mut m: usize = 0;
    let mut i: usize = 0;
    while i < n
        invariant
            n == d@.len(),
            dv == levels_view(d@),
            i <= n,
            forall|y: int| 0 <= y < d@.len() ==> (#[trigger] d@[y] matches Some(x) ==> x < d@.len()),
            m as nat == max_level(dv.take(i as int)),
            m < n,
        decreases n - i,
    {
        assert(dv.take(i + 1).drop_last() =~= dv.take(i as int));
        assert(dv.take(i + 1).last() == opt_view(d@[i as int]));
        if let Some(x) = d[i] {
            if x > m {
                m = x;
            }
        }
        i += 1;
    }
    assert(dv.take(n as int) =~= dv);
    let mut groups: Vec<Vec<String>> = Vec::new();
    let mut v: usize = 0;
    while v <= m
        invariant
            es == namespaces.entries(),
            dv == levels_view(d@),
            d@.len() == es.len(),
            n == d@.len(),
            m < n,
            v <= m + 1,
            groups@.map_values(|g: Vec<String>| strings_view(g@)) =~= Seq::new(v as nat, |w: int| names_at_depth(es, dv, w as nat)),
        decreases m + 1 - v,
    {
        let grp = names_at(namespaces, d, v);
        let ghost before = groups@.map_values(|g: Vec<String>| strings_view(g@));
        groups.push(grp);
        assert(groups@.map_values(|g: Vec<String>| strings_view(g@)) =~= before.push(names_at_depth(es, dv, v as nat)));
        v += 1;
    }
    assert(groups@.map_values(|g: Vec<String>| strings_view(g@)) =~= depth_groups(es, dv));
    groups
}

} // verus!
