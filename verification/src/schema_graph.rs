//! The graph of schemas and the packages they import: which schema waits for
//! which, and the order in which groups of them can be compiled.
use vstd::prelude::*;
use crate::ordmap::{Order, seq_lt, compare_str, lemma_lt_irreflexive, lemma_lt_asymmetric, lemma_lt_transitive, lemma_lt_total};
use crate::toks::strings_view;
use crate::common::{FromNamedSource, NamespaceCtx};
use crate::ordmap::StrMap;
use crate::paths::RefOrItemContext;
use crate::text::{push_char, push_nat_decimal, append_string, str_eq, nat_decimal};
use crate::scc::{components_of, rows, scc_partition};

verus! {

/// A package version: major, minor and patch numbers.
#[derive(Debug, Clone, Copy, PartialEq, Eq, Structural)]
pub struct Version {
    pub major: u64,
    pub minor: u64,
    pub patch: u64,
}

impl Version {
    pub fn new(major: u64, minor: u64, patch: u64) -> (r: Self)
        ensures
            r.major == major,
            r.minor == minor,
            r.patch == patch,
    {
        Version { major, minor, patch }
    }
}

/// A compiled schema by its package name, version and, when known, the hash
/// of its content.
#[derive(Debug)]
pub struct CacheKey {
    pub package_name: String,
    pub version: Version,
    pub content_hash: Option<String>,
}

impl PartialEq for CacheKey {
    fn eq(&self, other: &Self) -> (r: bool) {
        self.same_as(other)
    }
}

impl vstd::std_specs::cmp::PartialEqSpecImpl for CacheKey {
    open spec fn obeys_eq_spec() -> bool {
        true
    }

    open spec fn eq_spec(&self, other: &Self) -> bool {
        self@ == other@
    }
}

/// A cache key as plain values.
pub type KeyV = (Seq<char>, (u64, u64, u64), Option<Seq<char>>);

impl View for CacheKey {
    type V = KeyV;

    open spec fn view(&self) -> KeyV {
        (
            self.package_name@,
            (self.version.major, self.version.minor, self.version.patch),
            match self.content_hash {
                Some(h) => Some(h@),
                None => None,
            },
        )
    }
}

/// Versions ordered by major, then minor, then patch number.
pub open spec fn version_lt(a: (u64, u64, u64), b: (u64, u64, u64)) -> bool {
    a.0 < b.0 || (a.0 == b.0 && (a.1 < b.1 || (a.1 == b.1 && a.2 < b.2)))
}

/// A missing hash comes before any hash; hashes compare as strings.
pub open spec fn hash_lt(a: Option<Seq<char>>, b: Option<Seq<char>>) -> bool {
    match (a, b) {
        (None, Some(_)) => true,
        (Some(x), Some(y)) => seq_lt(x, y),
        _ => false,
    }
}

/// Cache keys ordered by package name, then version, then hash.
pub open spec fn key_lt(a: KeyV, b: KeyV) -> bool {
    seq_lt(a.0, b.0) || (a.0 == b.0 && (version_lt(a.1, b.1) || (a.1 == b.1 && hash_lt(a.2, b.2))))
}

pub proof fn lemma_key_lt_asymmetric(a: KeyV, b: KeyV)
    requires
        key_lt(a, b),
    ensures
        !key_lt(b, a),
        a != b,
{
    if seq_lt(a.0, b.0) {
        lemma_lt_asymmetric(a.0, b.0);
    } else {
        lemma_lt_irreflexive(a.0);
        if a.1 == b.1 {
            match (a.2, b.2) {
                (Some(x), Some(y)) => {
                    lemma_lt_asymmetric(x, y);
                },
                _ => {},
            }
        }
    }
}

pub proof fn lemma_key_lt_irreflexive(a: KeyV)
    ensures
        !key_lt(a, a),
{
    lemma_lt_irreflexive(a.0);
    if let Some(x) = a.2 {
        lemma_lt_irreflexive(x);
    }
}

pub proof fn lemma_key_lt_transitive(a: KeyV, b: KeyV, c: KeyV)
    requires
        key_lt(a, b),
        key_lt(b, c),
    ensures
        key_lt(a, c),
{
    if seq_lt(a.0, b.0) && seq_lt(b.0, c.0) {
        lemma_lt_transitive(a.0, b.0, c.0);
    } else if a.0 == b.0 && b.0 == c.0 {
        lemma_lt_irreflexive(a.0);
        if a.1 == b.1 && b.1 == c.1 {
            match (a.2, b.2, c.2) {
                (Some(x), Some(y), Some(z)) => {
                    lemma_lt_transitive(x, y, z);
                },
                _ => {},
            }
        }
    }
}

pub proof fn lemma_key_lt_total(a: KeyV, b: KeyV)
    ensures
        key_lt(a, b) || a == b || key_lt(b, a),
{
    lemma_lt_total(a.0, b.0);
    match (a.2, b.2) {
        (Some(x), Some(y)) => {
            lemma_lt_total(x, y);
        },
        _ => {},
    }
}

fn compare_versions(a: Version, b: Version) -> (r: Order)
    ensures
        r is Less <==> version_lt((a.major, a.minor, a.patch), (b.major, b.minor, b.patch)),
        r is Equal <==> a == b,
        r is Greater <==> version_lt((b.major, b.minor, b.patch), (a.major, a.minor, a.patch)),
{
    if a.major != b.major {
        if a.major < b.major { Order::Less } else { Order::Greater }
    } else if a.minor != b.minor {
        if a.minor < b.minor { Order::Less } else { Order::Greater }
    } else if a.patch != b.patch {
        if a.patch < b.patch { Order::Less } else { Order::Greater }
    } else {
        Order::Equal
    }
}

fn dup_opt_string(s: &Option<String>) -> (r: Option<String>)
    ensures
        match (r, *s) {
            (Some(x), Some(y)) => x@ == y@,
            (None, None) => true,
            _ => false,
        },
{
    match s {
        Some(x) => Some(x.clone()),
        None => None,
    }
}

impl CacheKey {
    pub fn new(package_name: String, version: Version, content_hash: Option<String>) -> (r: Self)
        ensures
            r.package_name == package_name,
            r.version == version,
            r.content_hash == content_hash,
    {
        CacheKey { package_name, version, content_hash }
    }

    /// A copy.
    pub fn duplicate(&self) -> (r: Self)
        ensures
            r@ == self@,
    {
        CacheKey {
            package_name: self.package_name.clone(),
            version: self.version,
            content_hash: dup_opt_string(&self.content_hash),
        }
    }

    /// Whether two keys name the same schema.
    pub fn same_as(&self, other: &CacheKey) -> (r: bool)
        ensures
            r == (self@ == other@),
    {
        if !str_eq(&self.package_name, &other.package_name) || self.version != other.version {
            return false;
        }
        match (&self.content_hash, &other.content_hash) {
            (Some(x), Some(y)) => str_eq(x, y),
            (None, None) => true,
            _ => false,
        }
    }

    /// Compares two keys by package name, then version, then hash.
    pub fn compare(&self, other: &CacheKey) -> (r: Order)
        ensures
            r is Less <==> key_lt(self@, other@),
            r is Equal <==> self@ == other@,
            r is Greater <==> key_lt(other@, self@),
    {
        proof {
            lemma_key_lt_irreflexive(self@);
            if key_lt(self@, other@) {
                lemma_key_lt_asymmetric(self@, other@);
            }
            if key_lt(other@, self@) {
                lemma_key_lt_asymmetric(other@, self@);
            }
        }
        match compare_str(&self.package_name, &other.package_name) {
            Order::Less => Order::Less,
            Order::Greater => Order::Greater,
            Order::Equal => {
                match compare_versions(self.version, other.version) {
                    Order::Less => Order::Less,
                    Order::Greater => Order::Greater,
                    Order::Equal => {
                        match (&self.content_hash, &other.content_hash) {
                            (None, None) => Order::Equal,
                            (None, Some(_)) => Order::Less,
                            (Some(_), None) => Order::Greater,
                            (Some(x), Some(y)) => {
                                let o = compare_str(x, y);
                                proof {
                                    lemma_lt_total(x@, y@);
                                }
                                o
                            },
                        }
                    },
                }
            },
        }
    }

    /// The key as `name@major.minor.patch`, followed by `:hash` when there
    /// is a hash.
    pub fn display(&self) -> (r: String)
        ensures
            r@ == key_text(self@),
    {
        let mut s = String::new();
        append_string(&mut s, &self.package_name);
        push_char(&mut s, '@');
        push_nat_decimal(&mut s, self.version.major);
        push_char(&mut s, '.');
        push_nat_decimal(&mut s, self.version.minor);
        push_char(&mut s, '.');
        push_nat_decimal(&mut s, self.version.patch);
        if let Some(h) = &self.content_hash {
            push_char(&mut s, ':');
            append_string(&mut s, h);
        }
        proof {
            assert(s@ =~= key_text(self@));
        }
        s
    }
}

/// The text of a key: `name@major.minor.patch`, then `:hash` when there is one.
pub open spec fn key_text(k: KeyV) -> Seq<char> {
    let base = k.0 + seq!['@'] + nat_decimal(k.1.0 as nat) + seq!['.'] + nat_decimal(k.1.1 as nat)
        + seq!['.'] + nat_decimal(k.1.2 as nat);
    match k.2 {
        Some(h) => base + seq![':'] + h,
        None => base,
    }
}

/// An import of a schema: the package it names and, once resolved, the key
/// of the schema it names.
#[derive(Debug)]
pub struct Import {
    pub name: String,
    pub resolved_id: Option<CacheKey>,
}

/// An import as plain values.
pub type ImportV = (Seq<char>, Option<KeyV>);

impl View for Import {
    type V = ImportV;

    open spec fn view(&self) -> ImportV {
        (
            self.name@,
            match self.resolved_id {
                Some(k) => Some(k@),
                None => None,
            },
        )
    }
}

impl Import {
    /// A copy.
    pub fn duplicate(&self) -> (r: Self)
        ensures
            r@ == self@,
    {
        Import {
            name: self.name.clone(),
            resolved_id: match &self.resolved_id {
                Some(k) => Some(k.duplicate()),
                None => None,
            },
        }
    }
}

/// The views of a list of imports.
pub open spec fn imports_view(v: Seq<Import>) -> Seq<ImportV> {
    v.map_values(|i: Import| i@)
}

/// The views of a list of keys.
pub open spec fn keys_view(v: Seq<CacheKey>) -> Seq<KeyV> {
    v.map_values(|k: CacheKey| k@)
}

/// A schema in the graph: its key, its imports and the schemas it depends on.
#[derive(Debug)]
pub struct SchemaNode {
    pub id: CacheKey,
    pub imports: Vec<Import>,
    pub depends_on: Vec<CacheKey>,
}

/// A node as plain values: key, imports, dependencies.
pub type NodeV = (KeyV, Seq<ImportV>, Seq<KeyV>);

impl View for SchemaNode {
    type V = NodeV;

    open spec fn view(&self) -> NodeV {
        (self.id@, imports_view(self.imports@), keys_view(self.depends_on@))
    }
}

/// Node keys strictly increasing.
pub open spec fn sorted_nodes(g: Seq<NodeV>) -> bool {
    forall|i: int, j: int| 0 <= i < j < g.len() ==> key_lt(g[i].0, g[j].0)
}

/// The first index at or after `i` of the node with key `k`, if any.
pub open spec fn key_pos_from(g: Seq<NodeV>, k: KeyV, i: int) -> Option<int>
    decreases g.len() - i,
{
    if i < 0 || i >= g.len() {
        None
    } else if g[i].0 == k {
        Some(i)
    } else {
        key_pos_from(g, k, i + 1)
    }
}

/// The index of the node with key `k`, if any.
pub open spec fn key_pos(g: Seq<NodeV>, k: KeyV) -> Option<int> {
    key_pos_from(g, k, 0)
}

pub proof fn lemma_key_pos_from(g: Seq<NodeV>, k: KeyV, i: int)
    requires
        0 <= i <= g.len(),
    ensures
        key_pos_from(g, k, i) matches Some(m) ==> i <= m < g.len() && g[m].0 == k
            && forall|j: int| i <= j < m ==> g[j].0 != k,
        key_pos_from(g, k, i) is None ==> forall|j: int| i <= j < g.len() ==> g[j].0 != k,
    decreases g.len() - i,
{
    if i < g.len() && g[i].0 != k {
        lemma_key_pos_from(g, k, i + 1);
    }
}

/// In a graph with sorted keys, a key stands at one index only.
pub proof fn lemma_key_pos_unique(g: Seq<NodeV>, i: int)
    requires
        sorted_nodes(g),
        0 <= i < g.len(),
    ensures
        key_pos(g, g[i].0) == Some(i),
{
    lemma_key_pos_from(g, g[i].0, 0);
    let m = key_pos(g, g[i].0);
    if m != Some(i) {
        assert(g[i].0 != g[i].0) by {
            lemma_key_pos_from(g, g[i].0, 0);
            if let Some(mm) = m {
                if mm < i {
                    lemma_key_lt_asymmetric(g[mm].0, g[i].0);
                }
            }
        }
    }
}

/// The schemas of a project and the imports between them, kept in key order.
#[derive(Debug)]
pub struct SchemaDependencyGraph {
    nodes: Vec<SchemaNode>,
}

impl View for SchemaDependencyGraph {
    type V = Seq<NodeV>;

    closed spec fn view(&self) -> Seq<NodeV> {
        self.nodes@.map_values(|n: SchemaNode| n@)
    }
}

impl SchemaDependencyGraph {
    pub open spec fn wf(&self) -> bool {
        sorted_nodes(self@)
    }

    pub fn new() -> (r: Self)
        ensures
            r.wf(),
            r@ == Seq::<NodeV>::empty(),
    {
        let r = SchemaDependencyGraph { nodes: Vec::new() };
        assert(r@ =~= Seq::<NodeV>::empty());
        r
    }

    /// The index of the node with key `id`, if any.
    fn find(&self, id: &CacheKey) -> (r: Option<usize>)
        requires
            self.wf(),
        ensures
            match r {
                Some(i) => key_pos(self@, id@) == Some(i as int) && i < self.nodes@.len(),
                None => key_pos(self@, id@) is None,
            },
    {
        let mut i: usize = 0;
        while i < self.nodes.len()
            invariant
                self.wf(),
                i <= self.nodes@.len(),
                forall|j: int| 0 <= j < i ==> self@[j].0 != id@,
            decreases self.nodes@.len() - i,
        {
            if self.nodes[i].id.same_as(id) {
                proof {
                    assert(self@[i as int].0 == id@);
                    lemma_key_pos_unique(self@, i as int);
                }
                return Some(i);
            }
            i += 1;
        }
        proof {
            lemma_key_pos_from(self@, id@, 0);
        }
        None
    }

    /// The node with key `id`, if any.
    pub fn get_node(&self, id: &CacheKey) -> (r: Option<&SchemaNode>)
        requires
            self.wf(),
        ensures
            match key_pos(self@, id@) {
                Some(i) => r is Some && r.unwrap()@ == self@[i],
                None => r is None,
            },
    {
        match self.find(id) {
            Some(i) => Some(&self.nodes[i]),
            None => None,
        }
    }

    /// Adds a schema with its imports and no dependencies yet; a schema with
    /// the same key is replaced.
    pub fn add_schema(&mut self, id: CacheKey, imports: Vec<Import>)
        requires
            old(self).wf(),
        ensures
            final(self).wf(),
            match key_pos(old(self)@, id@) {
                Some(i) => final(self)@ == old(self)@.update(i, (id@, imports_view(imports@), Seq::<KeyV>::empty())),
                None => exists|p: int| 0 <= p <= old(self)@.len()
                    && final(self)@ == old(self)@.insert(p, (id@, imports_view(imports@), Seq::<KeyV>::empty())),
            },
    {
        let ghost g = self@;
        let ghost nv: NodeV = (id@, imports_view(imports@), Seq::<KeyV>::empty());
        let mut p: usize = 0;
        let mut stop = false;
        while !stop && p < self.nodes.len()
            invariant
                self@ == g,
                old(self)@ == g,
                nv == (id@, imports_view(imports@), Seq::<KeyV>::empty()),
                sorted_nodes(g),
                p <= g.len(),
                forall|j: int| 0 <= j < p ==> key_lt(g[j].0, id@),
                stop ==> p < g.len() && key_lt(id@, g[p as int].0),
            decreases g.len() - p, if stop { 0int } else { 1int },
        {
            match self.nodes[p].id.compare(&id) {
                Order::Less => {
                    p += 1;
                },
                Order::Equal => {
                    proof {
                        lemma_key_pos_unique(g, p as int);
                    }
                    let node = SchemaNode { id, imports, depends_on: Vec::new() };
                    proof {
                        assert(node@ == nv) by {
                            assert(node@.2 =~= Seq::<KeyV>::empty());
                        }
                    }
                    self.nodes.set(p, node);
                    proof {
                        assert(self@ =~= g.update(p as int, nv));
                        assert forall|i: int, j: int| 0 <= i < j < self@.len() implies key_lt(self@[i].0, self@[j].0) by {
                            assert(self@[i].0 == g[i].0 && self@[j].0 == g[j].0);
                        }
                    }
                    return;
                },
                Order::Greater => {
                    stop = true;
                },
            }
        }
        proof {
            assert forall|j: int| p <= j < g.len() implies key_lt(id@, g[j].0) by {
                if j > p {
                    lemma_key_lt_transitive(id@, g[p as int].0, g[j].0);
                }
            }
            assert forall|j: int| 0 <= j < g.len() implies g[j].0 != id@ by {
                if j < p {
                    lemma_key_lt_asymmetric(g[j].0, id@);
                } else {
                    lemma_key_lt_asymmetric(id@, g[j].0);
                }
            }
            lemma_key_pos_from(g, id@, 0);
        }
        let node = SchemaNode { id, imports, depends_on: Vec::new() };
        proof {
            assert(node@ == nv) by {
                assert(node@.2 =~= Seq::<KeyV>::empty());
            }
        }
        self.nodes.insert(p, node);
        proof {
            assert(self@ =~= g.insert(p as int, nv));
            assert forall|i: int, j: int| 0 <= i < j < self@.len() implies key_lt(self@[i].0, self@[j].0) by {
                if j < p {
                    assert(self@[i] == g[i] && self@[j] == g[j]);
                } else if j == p {
                    assert(self@[i] == g[i]);
                } else if i == p {
                    assert(self@[j] == g[j - 1]);
                } else if i < p {
                    assert(self@[i] == g[i] && self@[j] == g[j - 1]);
                } else {
                    assert(self@[i] == g[i - 1] && self@[j] == g[j - 1]);
                }
            }
        }
    }

    /// The index of the last node, in key order, whose package name is `name`.
    fn last_named_index(&self, name: &String) -> (r: Option<usize>)
        ensures
            match r {
                Some(i) => i < self.nodes@.len() && last_named(node_keys(self@), name@) == Some(self@[i as int].0),
                None => last_named(node_keys(self@), name@) is None,
            },
    {
        let ghost ks = node_keys(self@);
        let mut i: usize = self.nodes.len();
        assert(ks.take(i as int) =~= ks);
        while i > 0
            invariant
                i <= self.nodes@.len(),
                ks == node_keys(self@),
                last_named(ks, name@) == last_named(ks.take(i as int), name@),
            decreases i,
        {
            i -= 1;
            assert(ks.take(i + 1).drop_last() =~= ks.take(i as int));
            if str_eq(&self.nodes[i].id.package_name, name) {
                return Some(i);
            }
        }
        assert(ks.take(0) =~= Seq::<KeyV>::empty());
        None
    }

    /// The dependencies of node `i` as its imports give them.
    fn dependencies_of(&self, i: usize) -> (r: Vec<CacheKey>)
        requires
            i < self@.len(),
        ensures
            keys_view(r@) == imports_deps(node_keys(self@), self@[i as int].1, self@[i as int].0),
    {
        let ghost ks = node_keys(self@);
        let ghost me = self@[i as int].0;
        let node = &self.nodes[i];
        let ghost imps = imports_view(node.imports@);
        let mut out: Vec<CacheKey> = Vec::new();
        let mut k: usize = 0;
        while k < node.imports.len()
            invariant
                i < self@.len(),
                ks == node_keys(self@),
                me == self@[i as int].0,
                *node == self.nodes@[i as int],
                imps == imports_view(node.imports@),
                imps == self@[i as int].1,
                me == node.id@,
                k <= node.imports@.len(),
                keys_view(out@) == imports_deps(ks, imps.take(k as int), me),
            decreases node.imports@.len() - k,
        {
            let imp = &node.imports[k];
            let ghost before = out@;
            assert(imps.take(k + 1).drop_last() =~= imps.take(k as int));
            assert(imps[k as int] == imp@);
            match &imp.resolved_id {
                Some(rid) => {
                    if !rid.same_as(&node.id) {
                        out.push(rid.duplicate());
                    }
                },
                None => {
                    match self.last_named_index(&imp.name) {
                        Some(j) => {
                            if !self.nodes[j].id.same_as(&node.id) {
                                out.push(self.nodes[j].id.duplicate());
                            }
                        },
                        None => {},
                    }
                },
            }
            assert(keys_view(out@) =~= keys_view(before) + import_deps(ks, imp@, me));
            k += 1;
        }
        assert(imps.take(k as int) =~= imps);
        out
    }

    /// Fills in the dependencies of every schema from its imports: a resolved
    /// import names its schema, any other import the schema whose package
    /// name it names (the last in key order when several share it); a schema
    /// never depends on itself.
    pub fn build_dependencies(&mut self)
        requires
            old(self).wf(),
        ensures
            final(self).wf(),
            final(self)@.len() == old(self)@.len(),
            forall|i: int| 0 <= i < old(self)@.len() ==> #[trigger] final(self)@[i] == (
                old(self)@[i].0,
                old(self)@[i].1,
                imports_deps(node_keys(old(self)@), old(self)@[i].1, old(self)@[i].0),
            ),
    {
        let ghost g = self@;
        let ghost ks = node_keys(g);
        let n = self.nodes.len();
        let mut i: usize = 0;
        while i < n
            invariant
                n == g.len(),
                self@.len() == g.len(),
                ks == node_keys(g),
                node_keys(self@) == ks,
                i <= n,
                forall|j: int| i <= j < n ==> #[trigger] self@[j] == g[j],
                forall|j: int| 0 <= j < i ==> #[trigger] self@[j] == (g[j].0, g[j].1, imports_deps(ks, g[j].1, g[j].0)),
            decreases n - i,
        {
            let deps = self.dependencies_of(i);
            let ghost cur = self@;
            let mut node = self.nodes.remove(i);
            node.depends_on = deps;
            self.nodes.insert(i, node);
            proof {
                assert(self@ =~= cur.update(i as int, (g[i as int].0, g[i as int].1, imports_deps(ks, g[i as int].1, g[i as int].0))));
                assert(node_keys(self@) =~= node_keys(cur));
            }
            i += 1;
        }
        proof {
            assert forall|a: int, b: int| 0 <= a < b < self@.len() implies key_lt(self@[a].0, self@[b].0) by {
                assert(self@[a].0 == g[a].0 && self@[b].0 == g[b].0);
            }
        }
    }

    /// The schemas that depend on `id`, in key order.
    pub fn successors(&self, id: &CacheKey) -> (r: Vec<CacheKey>)
        ensures
            keys_view(r@) == successors_of(self@, id@),
    {
        let mut out: Vec<CacheKey> = Vec::new();
        let mut i: usize = 0;
        while i < self.nodes.len()
            invariant
                i <= self.nodes@.len(),
                keys_view(out@) == successors_of(self@.take(i as int), id@),
            decreases self.nodes@.len() - i,
        {
            let ghost before = out@;
            assert(self@.take(i + 1).drop_last() =~= self@.take(i as int));
            if keys_contain(&self.nodes[i].depends_on, id) {
                out.push(self.nodes[i].id.duplicate());
            }
            assert(keys_view(out@) =~= successors_of(self@.take(i + 1), id@));
            i += 1;
        }
        assert(self@.take(i as int) =~= self@);
        out
    }

    /// Whether some schema of `cycle` depends on another schema of `cycle`.
    pub fn has_circular_dependency(&self, cycle: &[CacheKey]) -> (r: bool)
        requires
            self.wf(),
        ensures
            r == has_cycle_edge(self@, keys_view(cycle@)),
    {
        let ghost cv = keys_view(cycle@);
        let mut a: usize = 0;
        while a < cycle.len()
            invariant
                self.wf(),
                cv == keys_view(cycle@),
                a <= cycle@.len(),
                forall|x: int, b: int| 0 <= x < a && 0 <= b ==> !#[trigger] cycle_edge_at(self@, cv, x, b),
            decreases cycle@.len() - a,
        {
            match self.find(&cycle[a]) {
                Some(i) => {
                    let deps = &self.nodes[i].depends_on;
                    let mut b: usize = 0;
                    while b < deps.len()
                        invariant
                            self.wf(),
                            cv == keys_view(cycle@),
                            a < cycle@.len(),
                            i < self.nodes@.len(),
                            key_pos(self@, cv[a as int]) == Some(i as int),
                            *deps == self.nodes@[i as int].depends_on,
                            b <= deps@.len(),
                            forall|x: int, c: int| 0 <= x < a && 0 <= c ==> !#[trigger] cycle_edge_at(self@, cv, x, c),
                            forall|c: int| 0 <= c < b ==> !#[trigger] cycle_edge_at(self@, cv, a as int, c),
                        decreases deps@.len() - b,
                    {
                        let d = &deps[b];
                        assert(self@[i as int].2[b as int] == d@);
                        if keys_contain_slice(cycle, d) && !d.same_as(&cycle[a]) {
                            assert(cycle_edge_at(self@, cv, a as int, b as int));
                            return true;
                        }
                        b += 1;
                    }
                    assert forall|c: int| 0 <= c implies !#[trigger] cycle_edge_at(self@, cv, a as int, c) by {
                        if c < b {
                        }
                    }
                },
                None => {
                    assert forall|c: int| 0 <= c implies !#[trigger] cycle_edge_at(self@, cv, a as int, c) by {}
                },
            }
            a += 1;
        }
        false
    }

    /// The level node `i` takes from the exec levels `lv`.
    fn level_candidate(&self, lv: &Vec<Option<usize>>, i: usize) -> (r: Option<usize>)
        requires
            self.wf(),
            lv@.len() == self@.len(),
            i < self@.len(),
            self@[i as int].2.len() > 0,
            forall|j: int| 0 <= j < lv@.len() ==> (#[trigger] lv@[j] matches Some(x) ==> x < self@.len()),
        ensures
            opt_view(r) == level_from(self@, levels_view(lv@), i as int),
            r matches Some(x) ==> x <= self@.len(),
    {
        let ghost g = self@;
        let ghost lvs = levels_view(lv@);
        let deps = &self.nodes[i].depends_on;
        let ghost ds = keys_view(deps@);
        assert(ds == g[i as int].2);
        let mut acc: Option<usize> = None;
        let mut k: usize = 0;
        while k < deps.len()
            invariant
                self.wf(),
                g == self@,
                lvs == levels_view(lv@),
                lv@.len() == g.len(),
                forall|j: int| 0 <= j < lv@.len() ==> (#[trigger] lv@[j] matches Some(x) ==> x < g.len()),
                ds == keys_view(deps@),
                k <= deps@.len(),
                opt_view(acc) == max_dep_level(g, lvs, ds.take(k as int)),
                acc matches Some(x) ==> x < g.len(),
            decreases deps@.len() - k,
        {
            assert(ds.take(k + 1).drop_last() =~= ds.take(k as int));
            assert(ds.take(k + 1).last() == deps@[k as int]@);
            let dl: Option<usize> = match self.find(&deps[k]) {
                Some(j) => lv[j],
                None => None,
            };
            assert(opt_view(dl) == dep_level(g, lvs, deps@[k as int]@));
            acc = match (acc, dl) {
                (None, x) => x,
                (Some(a), None) => Some(a),
                (Some(a), Some(b)) => Some(if a >= b { a } else { b }),
            };
            k += 1;
        }
        assert(ds.take(k as int) =~= ds);
        let nn = self.nodes.len();
        assert(g.len() == nn);
        match acc {
            Some(m) => Some(m + 1),
            None => None,
        }
    }

    /// The schemas in groups that can be compiled one after the other: the
    /// first group holds the schemas without dependencies, and each schema
    /// stands one group after the last group holding one of its
    /// dependencies; each group is in key order, so by package name. When
    /// some schema has no level (a circle of dependencies stands between it
    /// and the schemas without dependencies), the names of all such schemas
    /// are reported instead.
    pub fn topological_groups(&self) -> (r: Result<Vec<Vec<CacheKey>>, SchemaGraphError>)
        requires
            self.wf(),
            levels_defined(self@),
        ensures
            match r {
                Ok(groups) => {
                    &&& all_levelled(schema_levels(self@))
                    &&& groups_view(groups@) == level_groups(self@, schema_levels(self@))
                },
                Err(SchemaGraphError::SchemaCircularDependency { schemas }) => {
                    &&& !all_levelled(schema_levels(self@))
                    &&& strings_view(schemas@) == unlevelled_names(self@, schema_levels(self@))
                },
            },
    {
        let ghost g = self@;
        let ghost lab = schema_levels(g);
        proof {
            assert(is_leveling(g, lab));
            assert forall|j: int| 0 <= j < g.len() && lab[j] is Some implies lab[j].unwrap() < g.len() by {
                lemma_level_bound(g, lab, j);
            }
        }
        let n = self.nodes.len();
        let mut lv: Vec<Option<usize>> = Vec::new();
        let mut i: usize = 0;
        while i < n
            invariant
                n == g.len(),
                g == self@,
                is_leveling(g, lab),
                i <= n,
                lv@.len() == i,
                forall|j: int| 0 <= j < i ==> #[trigger] levels_view(lv@)[j] == (if g[j].2.len() == 0 { Some(0nat) } else { None }),
            decreases n - i,
        {
            let ghost before = lv@;
            if self.nodes[i].depends_on.len() == 0 {
                lv.push(Some(0));
            } else {
                lv.push(None);
            }
            assert forall|j: int| 0 <= j <= i implies #[trigger] levels_view(lv@)[j] == opt_view(lv@[j]) by {}
            assert(g[i as int].2.len() == self.nodes@[i as int].depends_on@.len());
            assert forall|j: int| 0 <= j < i + 1 implies #[trigger] levels_view(lv@)[j] == (if g[j].2.len() == 0 { Some(0nat) } else { None }) by {
                if j < i {
                    assert(lv@[j] == before[j]);
                    assert(levels_view(before)[j] == opt_view(before[j]));
                }
            }
            i += 1;
        }
        proof {
            let lvs = levels_view(lv@);
            assert forall|j: int| 0 <= j < n implies #[trigger] opt_le(lvs[j], lab[j]) by {
                assert(lab[j] == level_from(g, lab, j));
            }
        }
        let mut done = false;
        while !done
            invariant
                n == g.len(),
                g == self@,
                self.wf(),
                is_leveling(g, lab),
                forall|j: int| 0 <= j < g.len() && lab[j] is Some ==> lab[j].unwrap() < g.len(),
                lv@.len() == n,
                levels_le(levels_view(lv@), lab),
                forall|j: int| 0 <= j < n && g[j].2.len() == 0 ==> #[trigger] levels_view(lv@)[j] == Some(0nat),
                forall|j: int| 0 <= j < n && g[j].2.len() > 0 ==> #[trigger] opt_le(levels_view(lv@)[j], level_from(g, levels_view(lv@), j)),
                done ==> forall|j: int| 0 <= j < n && g[j].2.len() > 0 ==> #[trigger] opt_le(level_from(g, levels_view(lv@), j), levels_view(lv@)[j]),
            decreases gap(lab, levels_view(lv@), n as int), if done { 0int } else { 1int },
        {
            let ghost start = levels_view(lv@);
            let mut changed = false;
            let mut i: usize = 0;
            while i < n
                invariant
                    n == g.len(),
                    g == self@,
                    self.wf(),
                    is_leveling(g, lab),
                    forall|j: int| 0 <= j < g.len() && lab[j] is Some ==> lab[j].unwrap() < g.len(),
                    lv@.len() == n,
                    i <= n,
                    levels_le(levels_view(lv@), lab),
                    levels_le(start, levels_view(lv@)),
                    levels_le(start, lab),
                    forall|j: int| 0 <= j < n && g[j].2.len() == 0 ==> #[trigger] levels_view(lv@)[j] == Some(0nat),
                    forall|j: int| 0 <= j < n && g[j].2.len() > 0 ==> #[trigger] opt_le(levels_view(lv@)[j], level_from(g, levels_view(lv@), j)),
                    changed ==> exists|j: int| 0 <= j < n && #[trigger] lvl_val(start[j]) < lvl_val(levels_view(lv@)[j]),
                    !changed ==> levels_view(lv@) == start,
                    !changed ==> forall|j: int| 0 <= j < i && g[j].2.len() > 0 ==> #[trigger] opt_le(level_from(g, levels_view(lv@), j), levels_view(lv@)[j]),
                decreases n - i,
            {
                if self.nodes[i].depends_on.len() > 0 {
                    let ghost cur = levels_view(lv@);
                    proof {
                        assert forall|j: int| 0 <= j < lv@.len() implies (#[trigger] lv@[j] matches Some(x) ==> x < g.len()) by {
                            assert(opt_le(cur[j], lab[j]));
                            assert(cur[j] == opt_view(lv@[j]));
                        }
                    }
                    let c = self.level_candidate(&lv, i);
                    let bigger = match (c, lv[i]) {
                        (Some(x), Some(y)) => x > y,
                        (Some(_), None) => true,
                        (None, _) => false,
                    };
                    if bigger {
                        lv.set(i, c);
                        proof {
                            let nw = levels_view(lv@);
                            assert(nw =~= cur.update(i as int, opt_view(c)));
                            assert(levels_le(cur, nw)) by {
                                assert forall|j: int| 0 <= j < n implies #[trigger] opt_le(cur[j], nw[j]) by {
                                    if j == i as int {
                                        assert(opt_le(cur[j], level_from(g, cur, j)));
                                    } else {
                                        assert(nw[j] == cur[j]);
                                    }
                                }
                            }
                            lemma_level_from_mono(g, cur, lab, i as int);
                            assert(lab[i as int] == level_from(g, lab, i as int));
                            assert(levels_le(nw, lab)) by {
                                assert forall|j: int| 0 <= j < n implies #[trigger] opt_le(nw[j], lab[j]) by {
                                    if j != i as int {
                                        assert(nw[j] == cur[j]);
                                        assert(opt_le(cur[j], lab[j]));
                                    }
                                }
                            }
                            assert forall|j: int| 0 <= j < n && g[j].2.len() > 0 implies #[trigger] opt_le(nw[j], level_from(g, nw, j)) by {
                                lemma_level_from_mono(g, cur, nw, j);
                                if j != i as int {
                                    assert(nw[j] == cur[j]);
                                    assert(opt_le(cur[j], level_from(g, cur, j)));
                                }
                            }
                            assert forall|j: int| 0 <= j < n && g[j].2.len() == 0 implies #[trigger] nw[j] == Some(0nat) by {
                                if j != i as int {
                                    assert(nw[j] == cur[j]);
                                }
                            }
                            assert(levels_le(start, nw)) by {
                                assert forall|j: int| 0 <= j < n implies #[trigger] opt_le(start[j], nw[j]) by {
                                    assert(opt_le(start[j], cur[j]));
                                    assert(opt_le(cur[j], nw[j]));
                                }
                            }
                            assert(lvl_val(start[i as int]) < lvl_val(nw[i as int])) by {
                                assert(opt_le(start[i as int], cur[i as int]));
                            }
                        }
                        changed = true;
                    } else {
                        proof {
                            assert(opt_le(level_from(g, cur, i as int), cur[i as int]));
                        }
                    }
                }
                i += 1;
            }
            proof {
                lemma_gap(lab, start, levels_view(lv@), n as int);
            }
            if !changed {
                done = true;
            }
        }
        let ghost fin = levels_view(lv@);
        proof {
            assert(is_leveling(g, fin)) by {
                assert forall|j: int| 0 <= j < g.len() implies #[trigger] fin[j] == level_from(g, fin, j) by {
                    if g[j].2.len() > 0 {
                        assert(opt_le(fin[j], level_from(g, fin, j)));
                        assert(opt_le(level_from(g, fin, j), fin[j]));
                    }
                }
            }
            lemma_leveling_unique(g, fin, lab);
            assert forall|j: int| 0 <= j < lv@.len() implies (#[trigger] lv@[j] matches Some(x) ==> x < g.len()) by {
                assert(opt_le(fin[j], lab[j]));
                assert(fin[j] == opt_view(lv@[j]));
            }
        }
        self.collect_groups(&lv)
    }


    /// The keys of the schemas at level `v`, in key order.
    fn keys_at(&self, lv: &Vec<Option<usize>>, v: usize) -> (r: Vec<CacheKey>)
        requires
            lv@.len() == self@.len(),
        ensures
            keys_view(r@) == keys_at_level(self@, levels_view(lv@), v as nat),
    {
        let ghost g = self@;
        let ghost lvs = levels_view(lv@);
        let mut out: Vec<CacheKey> = Vec::new();
        let mut i: usize = 0;
        while i < self.nodes.len()
            invariant
                g == self@,
                lvs == levels_view(lv@),
                lv@.len() == g.len(),
                i <= g.len(),
                keys_view(out@) == keys_at_level(g.take(i as int), lvs, v as nat),
            decreases g.len() - i,
        {
            let ghost before = out@;
            assert(g.take(i + 1).drop_last() =~= g.take(i as int));
            assert(lvs[i as int] == opt_view(lv@[i as int]));
            if lv[i] == Some(v) {
                out.push(self.nodes[i].id.duplicate());
            }
            assert(keys_view(out@) =~= keys_at_level(g.take(i + 1), lvs, v as nat));
            i += 1;
        }
        assert(g.take(i as int) =~= g);
        out
    }

    /// The groups by level, or the names of the schemas without a level.
    fn collect_groups(&self, lv: &Vec<Option<usize>>) -> (r: Result<Vec<Vec<CacheKey>>, SchemaGraphError>)
        requires
            lv@.len() == self@.len(),
            forall|j: int| 0 <= j < lv@.len() ==> (#[trigger] lv@[j] matches Some(x) ==> x < self@.len()),
        ensures
            match r {
                Ok(groups) => {
                    &&& all_levelled(levels_view(lv@))
                    &&& groups_view(groups@) == level_groups(self@, levels_view(lv@))
                },
                Err(SchemaGraphError::SchemaCircularDependency { schemas }) => {
                    &&& !all_levelled(levels_view(lv@))
                    &&& strings_view(schemas@) == unlevelled_names(self@, levels_view(lv@))
                },
            },
    {
        let ghost g = self@;
        let ghost lvs = levels_view(lv@);
        let n = self.nodes.len();
        let mut missing: Vec<String> = Vec::new();
        let mut i: usize = 0;
        while i < n
            invariant
                g == self@,
                n == g.len(),
                lvs == levels_view(lv@),
                lv@.len() == n,
                i <= n,
                strings_view(missing@) == unlevelled_names(g.take(i as int), lvs),
                (missing@.len() == 0) == (forall|j: int| 0 <= j < i ==> #[trigger] lvs[j] is Some),
            decreases n - i,
        {
            let ghost before = missing@;
            assert(g.take(i + 1).drop_last() =~= g.take(i as int));
            assert(lvs[i as int] == opt_view(lv@[i as int]));
            if lv[i].is_none() {
                missing.push(self.nodes[i].id.package_name.clone());
            }
            assert(strings_view(missing@) =~= unlevelled_names(g.take(i + 1), lvs));
            i += 1;
        }
        assert(g.take(n as int) =~= g);
        if missing.len() > 0 {
            return Err(SchemaGraphError::SchemaCircularDependency { schemas: missing });
        }
        if n == 0 {
            let r: Vec<Vec<CacheKey>> = Vec::new();
            assert(groups_view(r@) =~= level_groups(g, lvs));
            return Ok(r);
        }
        let mut m: usize = 0;
        let mut i: usize = 0;
        while i < n
            invariant
                n == g.len(),
                lvs == levels_view(lv@),
                lv@.len() == n,
                i <= n,
                forall|j: int| 0 <= j < lv@.len() ==> (#[trigger] lv@[j] matches Some(x) ==> x < n),
                m as nat == max_level(lvs.take(i as int)),
                m < n,
            decreases n - i,
        {
            assert(lvs.take(i + 1).drop_last() =~= lvs.take(i as int));
            assert(lvs.take(i + 1).last() == opt_view(lv@[i as int]));
            if let Some(x) = lv[i] {
                if x > m {
                    m = x;
                }
            }
            i += 1;
        }
        assert(lvs.take(n as int) =~= lvs);
        let mut groups: Vec<Vec<CacheKey>> = Vec::new();
        let mut v: usize = 0;
        while v <= m
            invariant
                g == self@,
                n == g.len(),
                lvs == levels_view(lv@),
                lv@.len() == g.len(),
                m < n,
                v <= m + 1,
                groups_view(groups@) =~= Seq::new(v as nat, |w: int| keys_at_level(g, lvs, w as nat)),
            decreases m + 1 - v,
        {
            let grp = self.keys_at(lv, v);
            let ghost before = groups_view(groups@);
            groups.push(grp);
            assert(groups_view(groups@) =~= before.push(keys_at_level(g, lvs, v as nat)));
            v += 1;
        }
        assert(groups_view(groups@) =~= level_groups(g, lvs));
        Ok(groups)
    }


    /// Raises the level of node `i` to what the others give it, when that
    /// is higher: 0 when nothing changed, 1 when raised, 2 when the level
    /// would reach the number of schemas (then no leveling exists).
    fn levels_step(&self, lv: &mut Vec<Option<usize>>, i: usize) -> (r: u8)
        requires
            self.wf(),
            lv_ok(self@, levels_view(old(lv)@)),
            old(lv)@.len() == self@.len(),
            i < self@.len(),
        ensures
            final(lv)@.len() == old(lv)@.len(),
            r <= 2,
            r == 2 ==> !levels_defined(self@),
            r != 2 ==> lv_ok(self@, levels_view(final(lv)@)) && levels_le(levels_view(old(lv)@), levels_view(final(lv)@)),
            r == 1 ==> lvl_val(levels_view(old(lv)@)[i as int]) < lvl_val(levels_view(final(lv)@)[i as int]),
            r == 0 ==> final(lv)@ == old(lv)@ && (self@[i as int].2.len() > 0 ==> opt_le(level_from(self@, levels_view(final(lv)@), i as int), levels_view(final(lv)@)[i as int])),
    {
        let ghost g = self@;
        let ghost cur = levels_view(lv@);
        if self.nodes[i].depends_on.len() == 0 {
            assert(g[i as int].2.len() == self.nodes@[i as int].depends_on@.len());
            return 0;
        }
        assert(g[i as int].2.len() == self.nodes@[i as int].depends_on@.len());
        proof {
            assert forall|j: int| 0 <= j < lv@.len() implies (#[trigger] lv@[j] matches Some(x) ==> x < g.len()) by {
                assert(cur[j] == opt_view(lv@[j]));
            }
        }
        let c = self.level_candidate(lv, i);
        let n = self.nodes.len();
        if let Some(x) = c {
            if x >= n {
                proof {
                    if levels_defined(g) {
                        let lab = choose|lab: Seq<Option<nat>>| is_leveling(g, lab);
                        assert(levels_le(cur, lab));
                        lemma_level_from_mono(g, cur, lab, i as int);
                        assert(lab[i as int] == level_from(g, lab, i as int));
                        lemma_level_bound(g, lab, i as int);
                    }
                }
                return 2;
            }
        }
        assert(cur[i as int] == opt_view(lv@[i as int]));
        let bigger = match (c, lv[i]) {
            (Some(x), Some(y)) => x > y,
            (Some(_), None) => true,
            (None, _) => false,
        };
        if !bigger {
            return 0;
        }
        lv.set(i, c);
        proof {
            let nw = levels_view(lv@);
            assert(nw =~= cur.update(i as int, opt_view(c)));
            assert(levels_le(cur, nw)) by {
                assert forall|j: int| 0 <= j < g.len() implies #[trigger] opt_le(cur[j], nw[j]) by {
                    if j != i as int {
                        assert(nw[j] == cur[j]);
                    }
                }
            }
            assert forall|lab: Seq<Option<nat>>| #[trigger] is_leveling(g, lab) implies levels_le(nw, lab) by {
                assert(levels_le(cur, lab));
                lemma_level_from_mono(g, cur, lab, i as int);
                assert(lab[i as int] == level_from(g, lab, i as int));
                assert forall|j: int| 0 <= j < g.len() implies #[trigger] opt_le(nw[j], lab[j]) by {
                    if j != i as int {
                        assert(nw[j] == cur[j]);
                        assert(opt_le(cur[j], lab[j]));
                    }
                }
            }
            assert forall|j: int| 0 <= j < g.len() && g[j].2.len() > 0 implies #[trigger] opt_le(nw[j], level_from(g, nw, j)) by {
                lemma_level_from_mono(g, cur, nw, j);
                if j != i as int {
                    assert(nw[j] == cur[j]);
                    assert(opt_le(cur[j], level_from(g, cur, j)));
                }
            }
            assert forall|j: int| 0 <= j < g.len() && g[j].2.len() == 0 implies #[trigger] nw[j] == Some(0nat) by {
                if j != i as int {
                    assert(nw[j] == cur[j]);
                }
            }
            assert forall|j: int| 0 <= j < g.len() && (#[trigger] nw[j]) is Some implies nw[j].unwrap() < g.len() by {
                if j != i as int {
                    assert(nw[j] == cur[j]);
                }
            }
        }
        1
    }

    /// Whether the schemas can be given levels, which `topological_groups`
    /// requires: no chain of dependencies starting at a schema without
    /// dependencies runs in a circle.
    pub fn has_levels(&self) -> (r: bool)
        requires
            self.wf(),
        ensures
            r == levels_defined(self@),
    {
        let ghost g = self@;
        let n = self.nodes.len();
        if n == 0 {
            assert(is_leveling(g, Seq::<Option<nat>>::empty()));
            return true;
        }
        let mut lv: Vec<Option<usize>> = Vec::new();
        let mut i: usize = 0;
        while i < n
            invariant
                n == g.len(),
                g == self@,
                i <= n,
                lv@.len() == i,
                forall|j: int| 0 <= j < i ==> #[trigger] levels_view(lv@)[j] == (if g[j].2.len() == 0 { Some(0nat) } else { None }),
            decreases n - i,
        {
            let ghost before = lv@;
            if self.nodes[i].depends_on.len() == 0 {
                lv.push(Some(0));
            } else {
                lv.push(None);
            }
            assert forall|j: int| 0 <= j <= i implies #[trigger] levels_view(lv@)[j] == opt_view(lv@[j]) by {}
            assert(g[i as int].2.len() == self.nodes@[i as int].depends_on@.len());
            assert forall|j: int| 0 <= j < i + 1 implies #[trigger] levels_view(lv@)[j] == (if g[j].2.len() == 0 { Some(0nat) } else { None }) by {
                if j < i {
                    assert(lv@[j] == before[j]);
                    assert(levels_view(before)[j] == opt_view(before[j]));
                }
            }
            i += 1;
        }
        proof {
            let lvs = levels_view(lv@);
            assert forall|lab: Seq<Option<nat>>| #[trigger] is_leveling(g, lab) implies levels_le(lvs, lab) by {
                assert forall|j: int| 0 <= j < n implies #[trigger] opt_le(lvs[j], lab[j]) by {
                    assert(lab[j] == level_from(g, lab, j));
                }
            }
            assert(lv_ok(g, lvs));
        }
        let ghost top = Seq::new(n as nat, |j: int| Some((n - 1) as nat));
        let mut done = false;
        while !done
            invariant
                n == g.len(),
                n > 0,
                g == self@,
                self.wf(),
                lv@.len() == n,
                top == Seq::new(n as nat, |j: int| Some((n - 1) as nat)),
                lv_ok(g, levels_view(lv@)),
                done ==> forall|j: int| 0 <= j < n && g[j].2.len() > 0 ==> #[trigger] opt_le(level_from(g, levels_view(lv@), j), levels_view(lv@)[j]),
            decreases gap(top, levels_view(lv@), n as int), if done { 0int } else { 1int },
        {
            let ghost start = levels_view(lv@);
            proof {
                assert(levels_le(start, top)) by {
                    assert forall|j: int| 0 <= j < n implies #[trigger] opt_le(start[j], top[j]) by {}
                }
                lemma_gap(top, start, start, n as int);
            }
            let mut changed = false;
            let mut i: usize = 0;
            while i < n
                invariant
                    n == g.len(),
                    g == self@,
                    self.wf(),
                    lv@.len() == n,
                    i <= n,
                    lv_ok(g, levels_view(lv@)),
                    levels_le(start, levels_view(lv@)),
                    changed ==> exists|j: int| 0 <= j < n && #[trigger] lvl_val(start[j]) < lvl_val(levels_view(lv@)[j]),
                    !changed ==> levels_view(lv@) == start,
                    !changed ==> forall|j: int| 0 <= j < i && g[j].2.len() > 0 ==> #[trigger] opt_le(level_from(g, levels_view(lv@), j), levels_view(lv@)[j]),
                decreases n - i,
            {
                let ghost cur = levels_view(lv@);
                let step = self.levels_step(&mut lv, i);
                if step == 2 {
                    return false;
                }
                proof {
                    let nw = levels_view(lv@);
                    assert(levels_le(start, nw)) by {
                        assert forall|j: int| 0 <= j < n implies #[trigger] opt_le(start[j], nw[j]) by {
                            assert(opt_le(start[j], cur[j]));
                            assert(opt_le(cur[j], nw[j]));
                        }
                    }
                    if step == 1 {
                        assert(opt_le(start[i as int], cur[i as int]));
                        assert(lvl_val(start[i as int]) < lvl_val(nw[i as int]));
                    }
                    if changed {
                        let w = choose|j: int| 0 <= j < n && #[trigger] lvl_val(start[j]) < lvl_val(cur[j]);
                        assert(opt_le(cur[w], nw[w]));
                        assert(lvl_val(start[w]) < lvl_val(nw[w]));
                    }
                }
                if step == 1 {
                    changed = true;
                }
                i += 1;
            }
            proof {
                let nw = levels_view(lv@);
                assert(levels_le(nw, top)) by {
                    assert forall|j: int| 0 <= j < n implies #[trigger] opt_le(nw[j], top[j]) by {}
                }
                assert(levels_le(start, top)) by {
                    assert forall|j: int| 0 <= j < n implies #[trigger] opt_le(start[j], top[j]) by {}
                }
                lemma_gap(top, start, nw, n as int);
            }
            if !changed {
                done = true;
            }
        }
        proof {
            let fin = levels_view(lv@);
            assert forall|j: int| 0 <= j < g.len() implies #[trigger] fin[j] == level_from(g, fin, j) by {
                if g[j].2.len() > 0 {
                    assert(opt_le(fin[j], level_from(g, fin, j)));
                    assert(opt_le(level_from(g, fin, j), fin[j]));
                }
            }
            assert(is_leveling(g, fin));
        }
        true
    }

}

/// The keys of the nodes, in order.
pub open spec fn node_keys(g: Seq<NodeV>) -> Seq<KeyV> {
    g.map_values(|n: NodeV| n.0)
}

/// The last key, in order, whose package name is `name`.
pub open spec fn last_named(ks: Seq<KeyV>, name: Seq<char>) -> Option<KeyV>
    decreases ks.len(),
{
    if ks.len() == 0 {
        None
    } else if ks.last().0 == name {
        Some(ks.last())
    } else {
        last_named(ks.drop_last(), name)
    }
}

/// What one import of the schema `me` adds to its dependencies.
pub open spec fn import_deps(ks: Seq<KeyV>, imp: ImportV, me: KeyV) -> Seq<KeyV> {
    match imp.1 {
        Some(r) => if r != me { seq![r] } else { Seq::empty() },
        None => match last_named(ks, imp.0) {
            Some(d) => if d != me { seq![d] } else { Seq::empty() },
            None => Seq::empty(),
        },
    }
}

/// The dependencies of the schema `me` with imports `imps`, in import order.
pub open spec fn imports_deps(ks: Seq<KeyV>, imps: Seq<ImportV>, me: KeyV) -> Seq<KeyV>
    decreases imps.len(),
{
    if imps.len() == 0 {
        Seq::empty()
    } else {
        imports_deps(ks, imps.drop_last(), me) + import_deps(ks, imps.last(), me)
    }
}

/// The keys of the nodes that depend on `k`, in order.
pub open spec fn successors_of(g: Seq<NodeV>, k: KeyV) -> Seq<KeyV>
    decreases g.len(),
{
    if g.len() == 0 {
        Seq::empty()
    } else {
        successors_of(g.drop_last(), k) + if g.last().2.contains(k) { seq![g.last().0] } else { Seq::empty() }
    }
}

/// Dependency `b` of the schema `cycle[x]` is another schema of `cycle`.
pub open spec fn cycle_edge_at(g: Seq<NodeV>, cycle: Seq<KeyV>, x: int, b: int) -> bool {
    &&& 0 <= x < cycle.len()
    &&& key_pos(g, cycle[x]) matches Some(i)
    &&& 0 <= b < g[i].2.len()
    &&& cycle.contains(g[i].2[b])
    &&& g[i].2[b] != cycle[x]
}

/// Some schema of `cycle` depends on another schema of `cycle`.
pub open spec fn has_cycle_edge(g: Seq<NodeV>, cycle: Seq<KeyV>) -> bool {
    exists|x: int, b: int| #[trigger] cycle_edge_at(g, cycle, x, b)
}

/// Whether `k` is among the keys `v`.
fn keys_contain(v: &Vec<CacheKey>, k: &CacheKey) -> (r: bool)
    ensures
        r == keys_view(v@).contains(k@),
{
    keys_contain_slice(v.as_slice(), k)
}

/// Whether `k` is among the keys `v`.
fn keys_contain_slice(v: &[CacheKey], k: &CacheKey) -> (r: bool)
    ensures
        r == keys_view(v@).contains(k@),
{
    let mut i: usize = 0;
    while i < v.len()
        invariant
            i <= v@.len(),
            forall|j: int| 0 <= j < i ==> v@[j]@ != k@,
        decreases v@.len() - i,
    {
        if v[i].same_as(k) {
            assert(keys_view(v@)[i as int] == k@);
            return true;
        }
        i += 1;
    }
    assert forall|j: int| 0 <= j < keys_view(v@).len() implies keys_view(v@)[j] != k@ by {
        assert(keys_view(v@)[j] == v@[j]@);
    }
    false
}

/// The level of the dependency `d` under `lv`: that of its node, when it is
/// in the graph and has one.
pub open spec fn dep_level(g: Seq<NodeV>, lv: Seq<Option<nat>>, d: KeyV) -> Option<nat> {
    match key_pos(g, d) {
        Some(j) => lv[j],
        None => None,
    }
}

/// The highest level among the dependencies `ds` that have one.
pub open spec fn max_dep_level(g: Seq<NodeV>, lv: Seq<Option<nat>>, ds: Seq<KeyV>) -> Option<nat>
    decreases ds.len(),
{
    if ds.len() == 0 {
        None
    } else {
        match (max_dep_level(g, lv, ds.drop_last()), dep_level(g, lv, ds.last())) {
            (None, x) => x,
            (Some(a), None) => Some(a),
            (Some(a), Some(b)) => Some(if a >= b { a } else { b }),
        }
    }
}

/// The level that node `i` takes from the levels `lv` of the others: 0 for
/// a schema without dependencies, else one more than the highest level among
/// its dependencies, and none when none of them has a level.
pub open spec fn level_from(g: Seq<NodeV>, lv: Seq<Option<nat>>, i: int) -> Option<nat> {
    if g[i].2.len() == 0 {
        Some(0)
    } else {
        match max_dep_level(g, lv, g[i].2) {
            Some(m) => Some(m + 1),
            None => None,
        }
    }
}

/// `lv` gives each schema its level: every schema has the level that its
/// dependencies give it. Schemas without a level are those that no chain of
/// dependencies ties to a schema without dependencies.
pub open spec fn is_leveling(g: Seq<NodeV>, lv: Seq<Option<nat>>) -> bool {
    &&& lv.len() == g.len()
    &&& forall|i: int| 0 <= i < g.len() ==> #[trigger] lv[i] == level_from(g, lv, i)
}

/// Levels can be given at all: no chain of dependencies that starts at a
/// schema without dependencies runs in a circle.
pub open spec fn levels_defined(g: Seq<NodeV>) -> bool {
    exists|lv: Seq<Option<nat>>| is_leveling(g, lv)
}

/// The levels of the schemas (there is at most one leveling).
pub open spec fn schema_levels(g: Seq<NodeV>) -> Seq<Option<nat>> {
    choose|lv: Seq<Option<nat>>| is_leveling(g, lv)
}

/// Every schema has a level.
pub open spec fn all_levelled(lv: Seq<Option<nat>>) -> bool {
    forall|i: int| 0 <= i < lv.len() ==> #[trigger] lv[i] is Some
}

/// The package names of the schemas without a level, in key order.
pub open spec fn unlevelled_names(g: Seq<NodeV>, lv: Seq<Option<nat>>) -> Seq<Seq<char>>
    decreases g.len(),
{
    if g.len() == 0 {
        Seq::empty()
    } else {
        unlevelled_names(g.drop_last(), lv) + if lv[g.len() - 1] is None { seq![g.last().0.0] } else { Seq::empty() }
    }
}

/// The keys of the schemas at level `v`, in key order.
pub open spec fn keys_at_level(g: Seq<NodeV>, lv: Seq<Option<nat>>, v: nat) -> Seq<KeyV>
    decreases g.len(),
{
    if g.len() == 0 {
        Seq::empty()
    } else {
        keys_at_level(g.drop_last(), lv, v) + if lv[g.len() - 1] == Some(v) { seq![g.last().0] } else { Seq::empty() }
    }
}

/// The highest level in `lv`, 0 when there is none.
pub open spec fn max_level(lv: Seq<Option<nat>>) -> nat
    decreases lv.len(),
{
    if lv.len() == 0 {
        0
    } else {
        let rest = max_level(lv.drop_last());
        match lv.last() {
            Some(v) => if v > rest { v } else { rest },
            None => rest,
        }
    }
}

/// The schemas grouped by level, from level 0 to the highest.
pub open spec fn level_groups(g: Seq<NodeV>, lv: Seq<Option<nat>>) -> Seq<Seq<KeyV>> {
    if g.len() == 0 {
        Seq::empty()
    } else {
        Seq::new(max_level(lv) + 1, |v: int| keys_at_level(g, lv, v as nat))
    }
}

/// `a` is below `b` everywhere: where `a` has a level, `b` has one at least
/// as high.
pub open spec fn levels_le(a: Seq<Option<nat>>, b: Seq<Option<nat>>) -> bool {
    &&& a.len() == b.len()
    &&& forall|j: int| 0 <= j < a.len() ==> #[trigger] opt_le(a[j], b[j])
}

pub open spec fn opt_le(a: Option<nat>, b: Option<nat>) -> bool {
    match (a, b) {
        (None, _) => true,
        (Some(x), Some(y)) => x <= y,
        (Some(_), None) => false,
    }
}

proof fn lemma_max_dep_level(g: Seq<NodeV>, lv: Seq<Option<nat>>, ds: Seq<KeyV>)
    ensures
        max_dep_level(g, lv, ds) matches Some(m) ==> exists|k: int| 0 <= k < ds.len() && #[trigger] dep_level(g, lv, ds[k]) == Some(m),
        max_dep_level(g, lv, ds) matches Some(m) ==> forall|k: int| 0 <= k < ds.len() ==> opt_le(#[trigger] dep_level(g, lv, ds[k]), Some(m)),
        max_dep_level(g, lv, ds) is None ==> forall|k: int| 0 <= k < ds.len() ==> #[trigger] dep_level(g, lv, ds[k]) is None,
    decreases ds.len(),
{
    if ds.len() > 0 {
        let pre = ds.drop_last();
        lemma_max_dep_level(g, lv, pre);
        let last = ds.len() - 1;
        assert(ds[last] == ds.last());
        let dl = dep_level(g, lv, ds.last());
        match max_dep_level(g, lv, pre) {
            Some(a) => {
                let k0 = choose|k: int| 0 <= k < pre.len() && #[trigger] dep_level(g, lv, pre[k]) == Some(a);
                assert(pre[k0] == ds[k0]);
                assert(dep_level(g, lv, ds[k0]) == Some(a));
                let m = max_dep_level(g, lv, ds).unwrap();
                assert forall|k: int| 0 <= k < ds.len() implies opt_le(#[trigger] dep_level(g, lv, ds[k]), Some(m)) by {
                    if k < pre.len() {
                        assert(pre[k] == ds[k]);
                        assert(opt_le(dep_level(g, lv, pre[k]), Some(a)));
                    }
                }
            },
            None => {
                assert forall|k: int| 0 <= k < ds.len() && k < pre.len() implies #[trigger] dep_level(g, lv, ds[k]) is None by {
                    assert(pre[k] == ds[k]);
                    assert(dep_level(g, lv, pre[k]) is None);
                }
                if let Some(m) = max_dep_level(g, lv, ds) {
                    assert forall|k: int| 0 <= k < ds.len() implies opt_le(#[trigger] dep_level(g, lv, ds[k]), Some(m)) by {
                        if k < pre.len() {
                            assert(dep_level(g, lv, ds[k]) is None);
                        }
                    }
                }
            },
        }
    }
}

/// Higher levels of the others give a schema a level at least as high.
proof fn lemma_max_dep_level_mono(g: Seq<NodeV>, a: Seq<Option<nat>>, b: Seq<Option<nat>>, ds: Seq<KeyV>)
    requires
        levels_le(a, b),
        a.len() == g.len(),
    ensures
        opt_le(max_dep_level(g, a, ds), max_dep_level(g, b, ds)),
{
    lemma_max_dep_level(g, a, ds);
    lemma_max_dep_level(g, b, ds);
    if let Some(m) = max_dep_level(g, a, ds) {
        let k = choose|k: int| 0 <= k < ds.len() && #[trigger] dep_level(g, a, ds[k]) == Some(m);
        lemma_key_pos_from(g, ds[k], 0);
        let j = key_pos(g, ds[k]).unwrap();
        assert(opt_le(a[j], b[j]));
        assert(dep_level(g, b, ds[k]) is Some);
    }
}

proof fn lemma_level_from_mono(g: Seq<NodeV>, a: Seq<Option<nat>>, b: Seq<Option<nat>>, i: int)
    requires
        levels_le(a, b),
        a.len() == g.len(),
        0 <= i < g.len(),
    ensures
        opt_le(level_from(g, a, i), level_from(g, b, i)),
{
    lemma_max_dep_level_mono(g, a, b, g[i].2);
}

/// The same levels for the dependencies give the same highest level.
proof fn lemma_max_dep_level_same(g: Seq<NodeV>, a: Seq<Option<nat>>, b: Seq<Option<nat>>, ds: Seq<KeyV>)
    requires
        forall|k: int| 0 <= k < ds.len() ==> #[trigger] dep_level(g, a, ds[k]) == dep_level(g, b, ds[k]),
    ensures
        max_dep_level(g, a, ds) == max_dep_level(g, b, ds),
    decreases ds.len(),
{
    if ds.len() > 0 {
        let pre = ds.drop_last();
        assert forall|k: int| 0 <= k < pre.len() implies #[trigger] dep_level(g, a, pre[k]) == dep_level(g, b, pre[k]) by {
            assert(pre[k] == ds[k]);
        }
        lemma_max_dep_level_same(g, a, b, pre);
        assert(ds.last() == ds[ds.len() - 1]);
    }
}

/// Where `a` gives a level up to `n`, `b` gives one too.
proof fn lemma_levelled_in_both(g: Seq<NodeV>, a: Seq<Option<nat>>, b: Seq<Option<nat>>, n: nat)
    requires
        is_leveling(g, a),
        is_leveling(g, b),
    ensures
        forall|j: int| 0 <= j < g.len() && (#[trigger] a[j] matches Some(v) && v <= n) ==> b[j] is Some,
    decreases n,
{
    if n > 0 {
        lemma_levelled_in_both(g, a, b, (n - 1) as nat);
    }
    assert forall|j: int| 0 <= j < g.len() && (#[trigger] a[j] matches Some(v) && v <= n) implies b[j] is Some by {
        assert(a[j] == level_from(g, a, j));
        assert(b[j] == level_from(g, b, j));
        if g[j].2.len() > 0 {
            let ds = g[j].2;
            lemma_max_dep_level(g, a, ds);
            lemma_max_dep_level(g, b, ds);
            let m = max_dep_level(g, a, ds).unwrap();
            let k = choose|k: int| 0 <= k < ds.len() && #[trigger] dep_level(g, a, ds[k]) == Some(m);
            lemma_key_pos_from(g, ds[k], 0);
            let jj = key_pos(g, ds[k]).unwrap();
            assert(a[jj] == Some(m));
            assert(b[jj] is Some);
            assert(dep_level(g, b, ds[k]) is Some);
        }
    }
}

/// Where `a` gives a level up to `n`, `b` gives the same level.
proof fn lemma_same_levels(g: Seq<NodeV>, a: Seq<Option<nat>>, b: Seq<Option<nat>>, n: nat)
    requires
        is_leveling(g, a),
        is_leveling(g, b),
        forall|j: int| 0 <= j < g.len() ==> (#[trigger] a[j] is Some <==> b[j] is Some),
    ensures
        forall|j: int| 0 <= j < g.len() && (#[trigger] a[j] matches Some(v) && v <= n) ==> b[j] == a[j],
    decreases n,
{
    if n > 0 {
        lemma_same_levels(g, a, b, (n - 1) as nat);
    }
    assert forall|j: int| 0 <= j < g.len() && (#[trigger] a[j] matches Some(v) && v <= n) implies b[j] == a[j] by {
        assert(a[j] == level_from(g, a, j));
        assert(b[j] == level_from(g, b, j));
        if g[j].2.len() > 0 {
            let ds = g[j].2;
            lemma_max_dep_level(g, a, ds);
            let m = max_dep_level(g, a, ds).unwrap();
            assert forall|k: int| 0 <= k < ds.len() implies #[trigger] dep_level(g, a, ds[k]) == dep_level(g, b, ds[k]) by {
                lemma_key_pos_from(g, ds[k], 0);
                if let Some(jj) = key_pos(g, ds[k]) {
                    assert(opt_le(dep_level(g, a, ds[k]), Some(m)));
                    if let Some(x) = a[jj] {
                        assert(x <= m);
                        if n > 0 {
                            assert(x <= n - 1);
                        }
                    }
                    assert(a[jj] is Some <==> b[jj] is Some);
                }
            }
            lemma_max_dep_level_same(g, a, b, ds);
        }
    }
}

/// A graph has at most one leveling.
pub proof fn lemma_leveling_unique(g: Seq<NodeV>, a: Seq<Option<nat>>, b: Seq<Option<nat>>)
    requires
        is_leveling(g, a),
        is_leveling(g, b),
    ensures
        a == b,
{
    assert forall|j: int| 0 <= j < g.len() implies (#[trigger] a[j] is Some <==> b[j] is Some) by {
        if let Some(v) = a[j] {
            lemma_levelled_in_both(g, a, b, v);
        }
        if let Some(v) = b[j] {
            lemma_levelled_in_both(g, b, a, v);
        }
    }
    assert forall|j: int| 0 <= j < g.len() implies a[j] == b[j] by {
        if let Some(v) = a[j] {
            lemma_same_levels(g, a, b, v);
        }
    }
    assert(a =~= b);
}

/// A schema at level `v` heads a chain of `v + 1` schemas, one at each level
/// from 0 to `v`.
proof fn lemma_level_chain(g: Seq<NodeV>, lv: Seq<Option<nat>>, j: int) -> (chain: Seq<int>)
    requires
        is_leveling(g, lv),
        0 <= j < g.len(),
        lv[j] is Some,
    ensures
        chain.len() == lv[j].unwrap() + 1,
        forall|w: int| 0 <= w < chain.len() ==> 0 <= #[trigger] chain[w] < g.len() && lv[chain[w]] == Some(w as nat),
    decreases lv[j].unwrap(),
{
    let v = lv[j].unwrap();
    assert(lv[j] == level_from(g, lv, j));
    if v == 0 {
        seq![j]
    } else {
        let ds = g[j].2;
        lemma_max_dep_level(g, lv, ds);
        let m = max_dep_level(g, lv, ds).unwrap();
        let k = choose|k: int| 0 <= k < ds.len() && #[trigger] dep_level(g, lv, ds[k]) == Some(m);
        lemma_key_pos_from(g, ds[k], 0);
        let jj = key_pos(g, ds[k]).unwrap();
        let c = lemma_level_chain(g, lv, jj);
        let r = c.push(j);
        assert forall|w: int| 0 <= w < r.len() implies 0 <= #[trigger] r[w] < g.len() && lv[r[w]] == Some(w as nat) by {
            if w < c.len() {
                assert(r[w] == c[w]);
            }
        }
        r
    }
}

/// Levels stay below the number of schemas.
pub proof fn lemma_level_bound(g: Seq<NodeV>, lv: Seq<Option<nat>>, j: int)
    requires
        is_leveling(g, lv),
        0 <= j < g.len(),
        lv[j] is Some,
    ensures
        lv[j].unwrap() < g.len(),
{
    let c = lemma_level_chain(g, lv, j);
    assert(c.no_duplicates()) by {
        assert forall|a: int, b: int| 0 <= a < c.len() && 0 <= b < c.len() && a != b implies c[a] != c[b] by {
            assert(lv[c[a]] == Some(a as nat));
            assert(lv[c[b]] == Some(b as nat));
        }
    }
    c.unique_seq_to_set();
    vstd::set_lib::lemma_int_range(0, g.len() as int);
    assert(c.to_set().subset_of(vstd::set_lib::set_int_range(0, g.len() as int))) by {
        assert forall|x: int| c.to_set().contains(x) implies vstd::set_lib::set_int_range(0, g.len() as int).contains(x) by {
            let w = c.index_of(x);
            assert(c[w] == x);
        }
    }
    vstd::set_lib::lemma_len_subset(c.to_set(), vstd::set_lib::set_int_range(0, g.len() as int));
}

/// In a leveling, a schema stands above each dependency that has a level;
/// so each group holds only schemas whose dependencies come in earlier groups.
pub proof fn lemma_dependencies_come_first(g: Seq<NodeV>, lv: Seq<Option<nat>>, i: int, k: int)
    requires
        is_leveling(g, lv),
        0 <= i < g.len(),
        0 <= k < g[i].2.len(),
        dep_level(g, lv, g[i].2[k]) is Some,
    ensures
        lv[i] is Some,
        dep_level(g, lv, g[i].2[k]).unwrap() < lv[i].unwrap(),
{
    assert(lv[i] == level_from(g, lv, i));
    lemma_max_dep_level(g, lv, g[i].2);
}

/// Why the schemas cannot be put in compile order.
#[derive(Debug)]
pub enum SchemaGraphError {
    /// These schemas (by package name, in key order) wait, through their
    /// dependencies, on a circle of schemas.
    SchemaCircularDependency { schemas: Vec<String> },
}

/// An exec level as a level.
pub open spec fn opt_view(o: Option<usize>) -> Option<nat> {
    match o {
        Some(x) => Some(x as nat),
        None => None,
    }
}

/// Exec levels as levels.
pub open spec fn levels_view(v: Seq<Option<usize>>) -> Seq<Option<nat>> {
    v.map_values(|o: Option<usize>| opt_view(o))
}

/// The views of groups of keys.
pub open spec fn groups_view(v: Seq<Vec<CacheKey>>) -> Seq<Seq<KeyV>> {
    v.map_values(|g: Vec<CacheKey>| keys_view(g@))
}

spec fn lvl_val(o: Option<nat>) -> nat {
    match o {
        Some(v) => v + 1,
        None => 0,
    }
}

/// How far the first `k` levels of `lv` lie below those of `lab`.
spec fn gap(lab: Seq<Option<nat>>, lv: Seq<Option<nat>>, k: int) -> int
    decreases k,
{
    if k <= 0 {
        0
    } else {
        gap(lab, lv, k - 1) + lvl_val(lab[k - 1]) - lvl_val(lv[k - 1])
    }
}

proof fn lemma_gap(lab: Seq<Option<nat>>, a: Seq<Option<nat>>, b: Seq<Option<nat>>, k: int)
    requires
        levels_le(a, lab),
        levels_le(b, lab),
        levels_le(a, b),
        0 <= k <= lab.len(),
    ensures
        0 <= gap(lab, b, k) <= gap(lab, a, k),
        (exists|j: int| 0 <= j < k && #[trigger] lvl_val(a[j]) < lvl_val(b[j])) ==> gap(lab, b, k) < gap(lab, a, k),
    decreases k,
{
    if k > 0 {
        lemma_gap(lab, a, b, k - 1);
        assert(opt_le(a[k - 1], b[k - 1]));
        assert(opt_le(b[k - 1], lab[k - 1]));
        if exists|j: int| 0 <= j < k && #[trigger] lvl_val(a[j]) < lvl_val(b[j]) {
            let j = choose|j: int| 0 <= j < k && #[trigger] lvl_val(a[j]) < lvl_val(b[j]);
            if j < k - 1 {
                assert(exists|j: int| 0 <= j < k - 1 && #[trigger] lvl_val(a[j]) < lvl_val(b[j]));
            }
        }
    }
}

/// The packages named by imports, in order.
pub open spec fn import_packages(imps: Seq<FromNamedSource<RefOrItemContext>>) -> Seq<Seq<char>>
    decreases imps.len(),
{
    if imps.len() == 0 {
        Seq::empty()
    } else {
        import_packages(imps.drop_last()).push(
            match imps.last().value {
                RefOrItemContext::Ref(c) => c.package@,
                RefOrItemContext::Item(i) => i.context.package@,
            },
        )
    }
}

/// The packages imported by the namespaces, namespace after namespace.
pub open spec fn namespaces_packages(entries: Seq<(String, NamespaceCtx)>) -> Seq<Seq<char>>
    decreases entries.len(),
{
    if entries.len() == 0 {
        Seq::empty()
    } else {
        namespaces_packages(entries.drop_last()) + import_packages(entries.last().1.imports@)
    }
}

/// The packages of `ps` other than `own`, each once, where it first occurs.
pub open spec fn other_packages(ps: Seq<Seq<char>>, own: Seq<char>) -> Seq<Seq<char>>
    decreases ps.len(),
{
    if ps.len() == 0 {
        Seq::empty()
    } else {
        let pre = other_packages(ps.drop_last(), own);
        if ps.last() != own && !pre.contains(ps.last()) {
            pre.push(ps.last())
        } else {
            pre
        }
    }
}

/// The imports of a schema: one unresolved import for each package other
/// than its own that one of its namespaces imports, in the order the
/// packages first appear (namespaces in name order, imports in order).
pub fn extract_imports(package: &String, namespaces: &StrMap<NamespaceCtx>) -> (r: Vec<Import>)
    ensures
        imports_view(r@) == other_packages(namespaces_packages(namespaces.entries()), package@).map_values(
            |n: Seq<char>| (n, None::<KeyV>),
        ),
{
    let ghost es = namespaces.entries();
    let entries = namespaces.as_entries();
    let mut seen: Vec<String> = Vec::new();
    let mut out: Vec<Import> = Vec::new();
    let mut i: usize = 0;
    while i < entries.len()
        invariant
            es == namespaces.entries(),
            entries@ == es,
            i <= es.len(),
            strings_view(seen@) == other_packages(namespaces_packages(es.take(i as int)), package@),
            imports_view(out@) == strings_view(seen@).map_values(|n: Seq<char>| (n, None::<KeyV>)),
        decreases es.len() - i,
    {
        let imps = &entries[i].1.imports;
        let ghost base = namespaces_packages(es.take(i as int));
        assert(es.take(i + 1).drop_last() =~= es.take(i as int));
        assert(es.take(i + 1).last() == es[i as int]);
        let mut k: usize = 0;
        while k < imps.len()
            invariant
                es == namespaces.entries(),
                entries@ == es,
                i < es.len(),
                *imps == es[i as int].1.imports,
                base == namespaces_packages(es.take(i as int)),
                k <= imps@.len(),
                strings_view(seen@) == other_packages(base + import_packages(imps@.take(k as int)), package@),
                imports_view(out@) == strings_view(seen@).map_values(|n: Seq<char>| (n, None::<KeyV>)),
            decreases imps@.len() - k,
        {
            let ghost pre = base + import_packages(imps@.take(k as int));
            assert(imps@.take(k + 1).drop_last() =~= imps@.take(k as int));
            assert(imps@.take(k + 1).last() == imps@[k as int]);
            assert((base + import_packages(imps@.take(k + 1))).drop_last() =~= pre);
            let rc = imps[k].value.as_ref_context();
            let p = &rc.package;
            assert((base + import_packages(imps@.take(k + 1))).last() == p@);
            if !str_eq(p, package) && !contains_string(&seen, p) {
                let ghost sv = strings_view(seen@);
                let ghost ov = imports_view(out@);
                seen.push(p.clone());
                out.push(Import { name: p.clone(), resolved_id: None });
                assert(strings_view(seen@) =~= sv.push(p@));
                assert(imports_view(out@) =~= ov.push((p@, None::<KeyV>)));
                assert(imports_view(out@) =~= strings_view(seen@).map_values(|n: Seq<char>| (n, None::<KeyV>)));
            }
            k += 1;
        }
        assert(imps@.take(k as int) =~= imps@);
        i += 1;
    }
    assert(es.take(i as int) =~= es);
    out
}

/// Whether `s` is among `v`.
fn contains_string(v: &Vec<String>, s: &String) -> (r: bool)
    ensures
        r == strings_view(v@).contains(s@),
{
    let mut i: usize = 0;
    while i < v.len()
        invariant
            i <= v@.len(),
            forall|j: int| 0 <= j < i ==> v@[j]@ != s@,
        decreases v@.len() - i,
    {
        if str_eq(&v[i], s) {
            assert(strings_view(v@)[i as int] == s@);
            return true;
        }
        i += 1;
    }
    assert forall|j: int| 0 <= j < strings_view(v@).len() implies strings_view(v@)[j] != s@ by {
        assert(strings_view(v@)[j] == v@[j]@);
    }
    false
}

/// The text of one group: `Level {level}:` and then one line
/// `  -> {package}` per schema.
pub open spec fn group_text(level: nat, group: Seq<KeyV>) -> Seq<char>
    decreases group.len(),
{
    if group.len() == 0 {
        "Level "@ + nat_decimal(level) + ":\n"@
    } else {
        group_text(level, group.drop_last()) + "  -> "@ + group.last().0 + "\n"@
    }
}

/// The text of the groups, from level 0 up.
pub open spec fn groups_text(groups: Seq<Seq<KeyV>>) -> Seq<char>
    decreases groups.len(),
{
    if groups.len() == 0 {
        Seq::empty()
    } else {
        groups_text(groups.drop_last()) + group_text((groups.len() - 1) as nat, groups.last())
    }
}

/// The groups as text, one block per level listing its packages.
pub fn pretty_print_groups(groups: &Vec<Vec<CacheKey>>) -> (r: String)
    ensures
        r@ == groups_text(groups_view(groups@)),
{
    let ghost gv = groups_view(groups@);
    let mut out = String::new();
    let mut level: usize = 0;
    while level < groups.len()
        invariant
            gv == groups_view(groups@),
            level <= groups@.len(),
            out@ == groups_text(gv.take(level as int)),
        decreases groups@.len() - level,
    {
        let group = &groups[level];
        let ghost kv = keys_view(group@);
        let ghost base = out@;
        assert(gv[level as int] == kv);
        append_string(&mut out, &String::from_str("Level "));
        push_nat_decimal(&mut out, level as u64);
        append_string(&mut out, &String::from_str(":\n"));
        assert(kv.take(0) =~= Seq::<KeyV>::empty());
        assert(out@ =~= base + group_text(level as nat, kv.take(0)));
        let mut k: usize = 0;
        while k < group.len()
            invariant
                kv == keys_view(group@),
                k <= group@.len(),
                out@ == base + group_text(level as nat, kv.take(k as int)),
            decreases group@.len() - k,
        {
            let ghost before = out@;
            append_string(&mut out, &String::from_str("  -> "));
            append_string(&mut out, &group[k].package_name);
            append_string(&mut out, &String::from_str("\n"));
            assert(kv.take(k + 1).drop_last() =~= kv.take(k as int));
            assert(kv.take(k + 1).last() == group@[k as int]@);
            assert(out@ =~= base + group_text(level as nat, kv.take(k + 1)));
            k += 1;
        }
        assert(kv.take(k as int) =~= kv);
        assert(gv.take(level + 1).drop_last() =~= gv.take(level as int));
        assert(gv.take(level + 1).last() == kv);
        assert(out@ =~= groups_text(gv.take(level + 1)));
        level += 1;
    }
    assert(gv.take(level as int) =~= gv);
    out
}

/// Exec levels kept in bounds while they rise: schemas without dependencies
/// at 0, every other level supported by its dependencies, every level below
/// the number of schemas and below every leveling.
spec fn lv_ok(g: Seq<NodeV>, lvs: Seq<Option<nat>>) -> bool {
    &&& lvs.len() == g.len()
    &&& forall|j: int| 0 <= j < g.len() && g[j].2.len() == 0 ==> #[trigger] lvs[j] == Some(0nat)
    &&& forall|j: int| 0 <= j < g.len() && g[j].2.len() > 0 ==> #[trigger] opt_le(lvs[j], level_from(g, lvs, j))
    &&& forall|j: int| 0 <= j < g.len() && (#[trigger] lvs[j]) is Some ==> lvs[j].unwrap() < g.len()
    &&& forall|lab: Seq<Option<nat>>| #[trigger] is_leveling(g, lab) ==> levels_le(lvs, lab)
}

/// `adj` gives, for the schema at each index of `g`, the indices of the
/// schemas that depend on it, in the order of `successors`.
pub open spec fn dependent_edges(g: Seq<NodeV>, adj: Seq<Seq<usize>>) -> bool {
    &&& adj.len() == g.len()
    &&& forall|i: int, j: int| 0 <= i < adj.len() && 0 <= j < adj[i].len() ==> #[trigger] adj[i][j] < adj.len()
    &&& forall|i: int| 0 <= i < adj.len() ==> (#[trigger] adj[i]).map_values(|x: usize| g[x as int].0) == successors_of(g, g[i].0)
}

/// `comps` are the strongly connected components of the schemas of `g`
/// and their dependencies, each schema by its key.
pub open spec fn schema_components(g: Seq<NodeV>, comps: Seq<Seq<KeyV>>) -> bool {
    exists|adj: Seq<Seq<usize>>, idx: Seq<Seq<usize>>| #![trigger dependent_edges(g, adj), scc_partition(adj, idx)] {
        &&& dependent_edges(g, adj)
        &&& scc_partition(adj, idx)
        &&& idx.len() == comps.len()
        &&& forall|c: int| 0 <= c < comps.len() ==> #[trigger] comps[c] == idx[c].map_values(|x: usize| g[x as int].0)
    }
}

/// What checking the components `comps` gives: success when each holds a
/// single schema, else the package names of the first that holds more.
pub open spec fn schema_cycles_outcome(comps: Seq<Seq<KeyV>>, r: Result<(), SchemaGraphError>) -> bool {
    match r {
        Ok(()) => forall|c: int| 0 <= c < comps.len() ==> #[trigger] comps[c].len() <= 1,
        Err(SchemaGraphError::SchemaCircularDependency { schemas }) => exists|c: int| {
            &&& 0 <= c < comps.len()
            &&& #[trigger] comps[c].len() > 1
            &&& forall|d: int| 0 <= d < c ==> #[trigger] comps[d].len() <= 1
            &&& strings_view(schemas@) == comps[c].map_values(|k: KeyV| k.0)
        },
    }
}

impl SchemaDependencyGraph {
    /// For the schema at each index, the indices of the schemas that depend
    /// on it.
    fn dependents_adjacency(&self) -> (adj: Vec<Vec<usize>>)
        ensures
            dependent_edges(self@, rows(adj@)),
    {
        let ghost g = self@;
        let mut adj: Vec<Vec<usize>> = Vec::new();
        let mut i: usize = 0;
        while i < self.nodes.len()
            invariant
                g == self@,
                g.len() == self.nodes@.len(),
                i <= g.len(),
                adj@.len() == i,
                forall|a: int, j: int| 0 <= a < i && 0 <= j < adj@[a]@.len() ==> #[trigger] adj@[a]@[j] < g.len(),
                forall|a: int| 0 <= a < i ==> (#[trigger] adj@[a])@.map_values(|x: usize| g[x as int].0) == successors_of(g, g[a].0),
            decreases g.len() - i,
        {
            let id = &self.nodes[i].id;
            assert(g[i as int].0 == id@);
            let mut row: Vec<usize> = Vec::new();
            let mut j: usize = 0;
            while j < self.nodes.len()
                invariant
                    g == self@,
                    g.len() == self.nodes@.len(),
                    j <= g.len(),
                    *id == self.nodes@[i as int].id,
                    forall|x: int| 0 <= x < row@.len() ==> #[trigger] row@[x] < j,
                    row@.map_values(|x: usize| g[x as int].0) == successors_of(g.take(j as int), id@),
                decreases g.len() - j,
            {
                let ghost before = row@;
                assert(g.take(j + 1).drop_last() =~= g.take(j as int));
                assert(g.take(j + 1).last() == g[j as int]);
                assert(g[j as int].2 == keys_view(self.nodes@[j as int].depends_on@));
                if keys_contain(&self.nodes[j].depends_on, id) {
                    row.push(j);
                    assert(row@.map_values(|x: usize| g[x as int].0) =~= before.map_values(|x: usize| g[x as int].0).push(g[j as int].0));
                } else {
                    assert(row@ == before);
                }
                j += 1;
            }
            assert(g.take(j as int) =~= g);
            let ghost pre = adj@;
            adj.push(row);
            proof {
                assert forall|a: int| 0 <= a < i + 1 implies (#[trigger] adj@[a])@.map_values(|x: usize| g[x as int].0) == successors_of(g, g[a].0) by {
                    if a < i {
                        assert(adj@[a] == pre[a]);
                    }
                }
                assert forall|a: int, j2: int| 0 <= a < i + 1 && 0 <= j2 < adj@[a]@.len() implies #[trigger] adj@[a]@[j2] < g.len() by {
                    if a < i {
                        assert(adj@[a] == pre[a]);
                    }
                }
            }
            i += 1;
        }
        proof {
            assert forall|a: int| 0 <= a < rows(adj@).len() implies (#[trigger] rows(adj@)[a]).map_values(|x: usize| g[x as int].0) == successors_of(g, g[a].0) by {
                assert(rows(adj@)[a] == adj@[a]@);
            }
            assert forall|a: int, j2: int| 0 <= a < rows(adj@).len() && 0 <= j2 < rows(adj@)[a].len() implies #[trigger] rows(adj@)[a][j2] < rows(adj@).len() by {
                assert(rows(adj@)[a] == adj@[a]@);
            }
        }
        adj
    }

    /// Finds the strongly connected components of the schemas and their
    /// dependencies: schemas that depend on each other in a circle are
    /// refused, by the package names of the first such component found.
    pub fn detect_schema_cycles(&self) -> (r: Result<(), SchemaGraphError>)
        ensures
            exists|comps: Seq<Seq<KeyV>>| #[trigger] schema_components(self@, comps) && schema_cycles_outcome(comps, r),
    {
        let ghost g = self@;
        let adj = self.dependents_adjacency();
        proof {
            assert forall|i: int, j: int| 0 <= i < adj@.len() && 0 <= j < adj@[i]@.len() implies #[trigger] adj@[i]@[j] < adj@.len() by {
                assert(rows(adj@)[i] == adj@[i]@);
            }
        }
        let idx = components_of(&adj);
        let ghost iv = rows(idx@);
        let ghost comps = iv.map_values(|v: Seq<usize>| v.map_values(|x: usize| g[x as int].0));
        proof {
            assert(schema_components(g, comps));
        }
        let mut c: usize = 0;
        while c < idx.len()
            invariant
                g == self@,
                g.len() == self.nodes@.len(),
                iv == rows(idx@),
                scc_partition(rows(adj@), iv),
                rows(adj@).len() == g.len(),
                comps == iv.map_values(|v: Seq<usize>| v.map_values(|x: usize| g[x as int].0)),
                schema_components(g, comps),
                c <= idx@.len(),
                forall|d: int| 0 <= d < c ==> #[trigger] comps[d].len() <= 1,
            decreases idx@.len() - c,
        {
            let row = &idx[c];
            assert(iv[c as int] == row@);
            if row.len() > 1 {
                let mut schemas: Vec<String> = Vec::new();
                let mut j: usize = 0;
                while j < row.len()
                    invariant
                        g == self@,
                        g.len() == self.nodes@.len(),
                        iv == rows(idx@),
                        scc_partition(rows(adj@), iv),
                        rows(adj@).len() == g.len(),
                        c < idx@.len(),
                        iv[c as int] == row@,
                        j <= row@.len(),
                        strings_view(schemas@) == row@.take(j as int).map_values(|x: usize| g[x as int].0.0),
                    decreases row@.len() - j,
                {
                    assert(iv[c as int][j as int] < rows(adj@).len());
                    let k = row[j];
                    assert(g[k as int] == self.nodes@[k as int]@);
                    let ghost before = schemas@;
                    let name = self.nodes[k].id.package_name.clone();
                    schemas.push(name);
                    assert(strings_view(schemas@) =~= strings_view(before).push(name@));
                    assert(name@ == g[k as int].0.0);
                    assert(row@.take(j + 1) =~= row@.take(j as int).push(k));
                    assert(strings_view(schemas@) =~= row@.take(j + 1).map_values(|x: usize| g[x as int].0.0));
                    j += 1;
                }
                proof {
                    assert(row@.take(j as int) =~= row@);
                    assert(strings_view(schemas@) =~= comps[c as int].map_values(|k: KeyV| k.0));
                    assert(comps[c as int].len() > 1);
                }
                let r = Err(SchemaGraphError::SchemaCircularDependency { schemas });
                assert(schema_cycles_outcome(comps, r));
                return r;
            }
            c += 1;
        }
        assert(schema_cycles_outcome(comps, Ok(())));
        Ok(())
    }
}

} // verus!
