//! Strongly connected components and topological groups of a graph whose
//! nodes are numbered, as `pathfinding` finds them.
use vstd::prelude::*;
use pathfinding::directed::strongly_connected_components::strongly_connected_components;
use pathfinding::directed::topological_sort::topological_sort_into_groups;

verus! {

/// `p` is a walk along the edges `adj`: each node of it is followed by one
/// of its successors.
pub open spec fn is_walk(adj: Seq<Seq<usize>>, p: Seq<usize>) -> bool {
    &&& p.len() > 0
    &&& forall|i: int| 0 <= i < p.len() - 1 ==> adj[p[i] as int].contains(#[trigger] p[i + 1])
}

/// Node `b` can be reached from node `a` along the edges `adj`, in zero or
/// more steps.
pub open spec fn reaches(adj: Seq<Seq<usize>>, a: usize, b: usize) -> bool {
    exists|p: Seq<usize>| #[trigger] is_walk(adj, p) && p[0] == a && p[p.len() - 1] == b
}

/// Node `v` lies in one of the components `comps`.
pub open spec fn lies_in(comps: Seq<Seq<usize>>, v: usize) -> bool {
    exists|c: int, j: int| 0 <= c < comps.len() && 0 <= j < comps[c].len() && #[trigger] comps[c][j] == v
}

/// `comps` partitions the nodes `0..adj.len()` of the graph `adj` into its
/// strongly connected components: each node lies in one component, once;
/// the nodes of a component reach each other; nodes of two components do
/// not.
pub open spec fn scc_partition(adj: Seq<Seq<usize>>, comps: Seq<Seq<usize>>) -> bool {
    &&& forall|c: int| 0 <= c < comps.len() ==> #[trigger] comps[c].len() > 0
    &&& forall|c: int, j: int| 0 <= c < comps.len() && 0 <= j < comps[c].len() ==> #[trigger] comps[c][j] < adj.len()
    &&& forall|v: usize| v < adj.len() ==> #[trigger] lies_in(comps, v)
    &&& forall|c1: int, j1: int, c2: int, j2: int|
        0 <= c1 < comps.len() && 0 <= j1 < comps[c1].len() && 0 <= c2 < comps.len() && 0 <= j2 < comps[c2].len()
        && #[trigger] comps[c1][j1] == #[trigger] comps[c2][j2] ==> c1 == c2 && j1 == j2
    &&& forall|c: int, j1: int, j2: int| 0 <= c < comps.len() && 0 <= j1 < comps[c].len() && 0 <= j2 < comps[c].len()
        ==> reaches(adj, #[trigger] comps[c][j1], #[trigger] comps[c][j2])
    &&& forall|c1: int, j1: int, c2: int, j2: int|
        0 <= c1 < comps.len() && 0 <= j1 < comps[c1].len() && 0 <= c2 < comps.len() && 0 <= j2 < comps[c2].len() && c1 != c2
        ==> !(reaches(adj, #[trigger] comps[c1][j1], #[trigger] comps[c2][j2]) && reaches(adj, comps[c2][j2], comps[c1][j1]))
}

/// The edges of a graph as views.
pub open spec fn rows(adj: Seq<Vec<usize>>) -> Seq<Seq<usize>> {
    adj.map_values(|v: Vec<usize>| v@)
}

/// The successors of node `i`.
pub fn successors_of(adj: &Vec<Vec<usize>>, i: usize) -> (r: Vec<usize>)
    requires
        i < adj@.len(),
    ensures
        r@ == adj@[i as int]@,
{
    let row = &adj[i];
    let mut r: Vec<usize> = Vec::new();
    let mut k: usize = 0;
    while k < row.len()
        invariant
            k <= row@.len(),
            r@ == row@.subrange(0, k as int),
        decreases row@.len() - k,
    {
        r.push(row[k]);
        assert(row@.subrange(0, k + 1) == row@.subrange(0, k as int).push(row@[k as int]));
        k += 1;
    }
    assert(row@.subrange(0, row@.len() as int) == row@);
    r
}

/// `pathfinding`'s `strongly_connected_components` on the nodes
/// `0..adj.len()`, each followed by the nodes `adj[i]`: the graph's
/// strongly connected components, a partition of its nodes, as its
/// documentation promises. The order of the components, and of the nodes
/// within one, follows how a hash map of the crate is walked, and is left
/// unsaid.
#[verifier::external_body]
pub(crate) fn components_of(adj: &Vec<Vec<usize>>) -> (r: Vec<Vec<usize>>)
    requires
        forall|i: int, j: int| 0 <= i < adj@.len() && 0 <= j < adj@[i]@.len() ==> #[trigger] adj@[i]@[j] < adj@.len(),
    ensures
        scc_partition(rows(adj@), rows(r@)),
{
    let nodes: Vec<usize> = (0..adj.len()).collect();
    strongly_connected_components(&nodes, |i: &usize| successors_of(adj, *i))
}

/// Node `u` lies in one of the first `g` groups of `groups`.
pub open spec fn lies_before(groups: Seq<Seq<usize>>, u: usize, g: int) -> bool {
    exists|h: int, j: int| 0 <= h < g && 0 <= j < groups[h].len() && #[trigger] groups[h][j] == u
}

/// `groups` sorts the nodes `0..adj.len()` of the graph `adj` into layers:
/// each node lies in one group, once; every node with an edge into a node
/// lies in an earlier group; and a node of a later group has an edge into
/// it from the group just before.
pub open spec fn layering(adj: Seq<Seq<usize>>, groups: Seq<Seq<usize>>) -> bool {
    &&& forall|g: int| 0 <= g < groups.len() ==> #[trigger] groups[g].len() > 0
    &&& forall|g: int, j: int| 0 <= g < groups.len() && 0 <= j < groups[g].len() ==> #[trigger] groups[g][j] < adj.len()
    &&& forall|v: usize| v < adj.len() ==> #[trigger] lies_in(groups, v)
    &&& forall|g1: int, j1: int, g2: int, j2: int|
        0 <= g1 < groups.len() && 0 <= j1 < groups[g1].len() && 0 <= g2 < groups.len() && 0 <= j2 < groups[g2].len()
        && #[trigger] groups[g1][j1] == #[trigger] groups[g2][j2] ==> g1 == g2 && j1 == j2
    &&& forall|g: int, j: int, u: usize| 0 <= g < groups.len() && 0 <= j < groups[g].len() && u < adj.len()
        && #[trigger] adj[u as int].contains(#[trigger] groups[g][j]) ==> lies_before(groups, u, g)
    &&& forall|g: int, j: int| #![trigger groups[g][j]] 1 <= g < groups.len() && 0 <= j < groups[g].len()
        ==> exists|u: int| 0 <= u < groups[g - 1].len() && #[trigger] adj[groups[g - 1][u] as int].contains(groups[g][j])
}

/// The graph `adj` has a cycle: a walk of at least one step back to where
/// it started.
pub open spec fn has_cycle(adj: Seq<Seq<usize>>) -> bool {
    exists|p: Seq<usize>| #[trigger] is_walk(adj, p) && p.len() >= 2 && p[0] == p[p.len() - 1]
}

/// `pathfinding`'s `topological_sort_into_groups` on the nodes
/// `0..adj.len()`, each followed by the nodes `adj[i]`: when the graph has
/// no cycle, its nodes in layers, the first those no edge leads into, each
/// next those all of whose edges in come from the groups before; otherwise
/// the nodes it could not sort. As its documentation says, the order
/// within a group is not promised, and which nodes are left unsorted is
/// left unsaid.
#[verifier::external_body]
pub(crate) fn groups_of(adj: &Vec<Vec<usize>>) -> (r: Result<Vec<Vec<usize>>, Vec<usize>>)
    requires
        forall|i: int, j: int| 0 <= i < adj@.len() && 0 <= j < adj@[i]@.len() ==> #[trigger] adj@[i]@[j] < adj@.len(),
    ensures
        match r {
            Ok(groups) => layering(rows(adj@), rows(groups@)),
            Err(_) => has_cycle(rows(adj@)),
        },
{
    let nodes: Vec<usize> = (0..adj.len()).collect();
    match topological_sort_into_groups(&nodes, |i: &usize| successors_of(adj, *i)) {
        Ok(groups) => Ok(groups),
        Err((_, remaining)) => Err(remaining),
    }
}

} // verus!
