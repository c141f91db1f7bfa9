//! Sets of declared item paths, kept in path order.
use vstd::prelude::*;
use crate::toks::strings_view;
use crate::ordmap::Order;
use crate::paths::clone_strings;
use crate::pathord::{PathV, path_lt, compare_paths, lemma_path_lt_asymmetric, lemma_path_lt_transitive, lemma_path_lt_irreflexive};

verus! {

/// A package and the namespaces inside it.
#[derive(Debug)]
pub struct DeclRefContext {
    pub package: String,
    pub namespace: Vec<String>,
}

/// An item by its package, namespaces and name.
#[derive(Debug)]
pub struct DeclNamedItemContext {
    pub context: DeclRefContext,
    pub name: String,
}

impl View for DeclNamedItemContext {
    type V = PathV;

    open spec fn view(&self) -> PathV {
        (self.context.package@, strings_view(self.context.namespace@), self.name@)
    }
}

impl DeclNamedItemContext {
    /// A copy.
    pub fn duplicate(&self) -> (r: Self)
        ensures
            r@ == self@,
    {
        DeclNamedItemContext {
            context: DeclRefContext { package: self.context.package.clone(), namespace: clone_strings(&self.context.namespace) },
            name: self.name.clone(),
        }
    }

    fn compare(&self, other: &Self) -> (r: Order)
        ensures
            r is Less <==> path_lt(self@, other@),
            r is Equal <==> self@ == other@,
            r is Greater <==> path_lt(other@, self@),
    {
        let r = compare_paths(
            &self.context.package, &self.context.namespace, &self.name,
            &other.context.package, &other.context.namespace, &other.name,
        );
        proof {
            if path_lt(self@, other@) {
                lemma_path_lt_asymmetric(self@, other@);
            }
            if path_lt(other@, self@) {
                lemma_path_lt_asymmetric(other@, self@);
            }
            lemma_path_lt_irreflexive(self@);
        }
        r
    }
}

/// Paths strictly increasing.
pub open spec fn sorted_paths(s: Seq<PathV>) -> bool {
    forall|i: int, j: int| 0 <= i < j < s.len() ==> path_lt(s[i], s[j])
}

/// The paths of a list of items.
pub open spec fn paths_of(s: Seq<DeclNamedItemContext>) -> Seq<PathV> {
    s.map_values(|x: DeclNamedItemContext| x@)
}

/// A set of item paths, kept in increasing order.
#[derive(Debug)]
pub struct RefSet {
    items: Vec<DeclNamedItemContext>,
}

impl RefSet {
    /// The items, in increasing order.
    pub closed spec fn items(&self) -> Seq<DeclNamedItemContext> {
        self.items@
    }

    pub closed spec fn wf(&self) -> bool {
        sorted_paths(paths_of(self.items@))
    }

    /// The paths held.
    pub open spec fn set(&self) -> Set<PathV> {
        paths_of(self.items()).to_set()
    }

    pub fn new() -> (r: Self)
        ensures
            r.wf(),
            r.items().len() == 0,
            r.set() == Set::<PathV>::empty(),
    {
        let r = RefSet { items: Vec::new() };
        assert(paths_of(r.items@).to_set() =~= Set::<PathV>::empty());
        r
    }

    pub fn len(&self) -> (r: usize)
        ensures
            r == self.items().len(),
    {
        self.items.len()
    }

    /// The items, in increasing order.
    pub fn as_vec(&self) -> (r: &Vec<DeclNamedItemContext>)
        ensures
            r@ == self.items(),
    {
        &self.items
    }

    /// Adds an item unless its path is present; says whether it was added.
    pub fn insert(&mut self, x: DeclNamedItemContext) -> (added: bool)
        requires
            old(self).wf(),
        ensures
            final(self).wf(),
            final(self).set() == old(self).set().insert(x@),
            added == !old(self).set().contains(x@),
    {
        let ghost old_items = self.items@;
        let ghost ps = paths_of(old_items);
        let mut p: usize = 0;
        let mut stop = false;
        while !stop && p < self.items.len()
            invariant
                self.items@ == old_items,
                ps == paths_of(old_items),
                sorted_paths(ps),
                p <= old_items.len(),
                forall|j: int| 0 <= j < p ==> path_lt(ps[j], x@),
                stop ==> p < old_items.len() && path_lt(x@, ps[p as int]),
            decreases old_items.len() - p, if stop { 0int } else { 1int },
        {
            match self.items[p].compare(&x) {
                Order::Less => {
                    p += 1;
                },
                Order::Equal => {
                    proof {
                        assert(ps[p as int] == x@);
                        assert(ps.to_set().contains(x@));
                        assert(ps.to_set().insert(x@) =~= ps.to_set());
                    }
                    return false;
                },
                Order::Greater => {
                    stop = true;
                },
            }
        }
        proof {
            assert forall|j: int| p <= j < ps.len() implies path_lt(x@, ps[j]) by {
                if j > p {
                    lemma_path_lt_transitive(x@, ps[p as int], ps[j]);
                }
            }
            assert(!ps.to_set().contains(x@)) by {
                if ps.contains(x@) {
                    let j = choose|j: int| 0 <= j < ps.len() && ps[j] == x@;
                    if j < p {
                        lemma_path_lt_asymmetric(ps[j], x@);
                    } else {
                        lemma_path_lt_asymmetric(x@, ps[j]);
                    }
                }
            }
        }
        let ghost xv = x@;
        self.items.insert(p, x);
        proof {
            let nps = paths_of(self.items@);
            assert(nps =~= ps.insert(p as int, xv));
            assert forall|i: int, j: int| 0 <= i < j < nps.len() implies path_lt(nps[i], nps[j]) by {
                if j < p {
                    assert(nps[i] == ps[i] && nps[j] == ps[j]);
                } else if j == p {
                    assert(nps[i] == ps[i]);
                } else if i == p {
                    assert(nps[j] == ps[j - 1]);
                } else if i < p {
                    assert(nps[i] == ps[i] && nps[j] == ps[j - 1]);
                } else {
                    assert(nps[i] == ps[i - 1] && nps[j] == ps[j - 1]);
                }
            }
            assert forall|y: PathV| nps.to_set().contains(y) <==> ps.to_set().insert(xv).contains(y) by {
                if nps.contains(y) {
                    let j = choose|j: int| 0 <= j < nps.len() && nps[j] == y;
                    if j < p {
                        assert(ps[j] == y);
                    } else if j > p {
                        assert(ps[j - 1] == y);
                    }
                }
                if ps.contains(y) {
                    let j = choose|j: int| 0 <= j < ps.len() && ps[j] == y;
                    if j < p {
                        assert(nps[j] == y);
                    } else {
                        assert(nps[j + 1] == y);
                    }
                }
                if y == xv {
                    assert(nps[p as int] == y);
                }
            }
            assert(nps.to_set() =~= ps.to_set().insert(xv));
        }
        true
    }

    /// Whether the path of `x` is present.
    pub fn contains(&self, x: &DeclNamedItemContext) -> (r: bool)
        requires
            self.wf(),
        ensures
            r == self.set().contains(x@),
    {
        let ghost ps = paths_of(self.items@);
        let mut p: usize = 0;
        while p < self.items.len()
            invariant
                ps == paths_of(self.items@),
                p <= self.items@.len(),
                forall|j: int| 0 <= j < p ==> ps[j] != x@,
            decreases self.items@.len() - p,
        {
            match self.items[p].compare(x) {
                Order::Equal => {
                    assert(ps[p as int] == x@);
                    return true;
                },
                _ => {},
            }
            p += 1;
        }
        proof {
            if ps.contains(x@) {
                let j = choose|j: int| 0 <= j < ps.len() && ps[j] == x@;
                assert(ps[j] != x@);
            }
        }
        false
    }

    /// Adds every item of `other`.
    pub fn extend(&mut self, other: RefSet)
        requires
            old(self).wf(),
        ensures
            final(self).wf(),
            final(self).set() == old(self).set().union(other.set()),
    {
        let mut rest = other.items;
        let ghost all = rest@;
        let ghost base = self.set();
        let _n = rest.len();
        let mut k: usize = 0;
        while rest.len() > 0
            invariant
                self.wf(),
                rest@ == all.subrange(k as int, all.len() as int),
                k <= all.len(),
                k + rest@.len() == all.len(),
                all.len() <= usize::MAX,
                self.set() == base.union(paths_of(all.subrange(0, k as int)).to_set()),
            decreases rest@.len(),
        {
            let ghost s0 = self.set();
            let x = rest.remove(0);
            let ghost xv = x@;
            self.insert(x);
            proof {
                assert(all[k as int] == x);
                assert(paths_of(all.subrange(0, k + 1)) =~= paths_of(all.subrange(0, k as int)).push(xv));
                paths_of(all.subrange(0, k as int)).lemma_push_to_set_commute(xv);
                assert(self.set() =~= base.union(paths_of(all.subrange(0, k + 1)).to_set()));
            }
            k += 1;
        }
        assert(all.subrange(0, k as int) =~= all);
    }
}

} // verus!
