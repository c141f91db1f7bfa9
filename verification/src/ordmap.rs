//! The order of strings (by Unicode scalar value, as `String`'s `Ord`
//! orders them) and a map with string keys kept in that order.
use vstd::prelude::*;
use crate::text::chars_of;

verus! {

/// `a` comes before `b` at index `k`: they agree before `k`, and there `a`
/// ends while `b` goes on, or `a` has the smaller character.
pub open spec fn lt_at(a: Seq<char>, b: Seq<char>, k: int) -> bool {
    &&& 0 <= k <= a.len()
    &&& k <= b.len()
    &&& forall|j: int| 0 <= j < k ==> a[j] == b[j]
    &&& ((k == a.len() && k < b.len()) || (k < a.len() && k < b.len() && (a[k] as u32) < (b[k] as u32)))
}

/// Lexicographic order of character sequences.
pub open spec fn seq_lt(a: Seq<char>, b: Seq<char>) -> bool {
    exists|k: int| lt_at(a, b, k)
}

proof fn lemma_char_u32_inj(a: char, b: char)
    requires
        a != b,
    ensures
        (a as u32) != (b as u32),
{
    vstd::utf8::char_u32_cast(a, a as u32);
    vstd::utf8::char_u32_cast(b, b as u32);
}

pub proof fn lemma_lt_irreflexive(a: Seq<char>)
    ensures
        !seq_lt(a, a),
{
}

pub proof fn lemma_lt_asymmetric(a: Seq<char>, b: Seq<char>)
    requires
        seq_lt(a, b),
    ensures
        !seq_lt(b, a),
        a != b,
{
    let k1 = choose|k: int| lt_at(a, b, k);
    if seq_lt(b, a) {
        let k2 = choose|k: int| lt_at(b, a, k);
        if k1 < k2 {
            assert(b[k1] == a[k1]);
        } else if k2 < k1 {
            assert(a[k2] == b[k2]);
        }
    }
}

pub proof fn lemma_lt_transitive(a: Seq<char>, b: Seq<char>, c: Seq<char>)
    requires
        seq_lt(a, b),
        seq_lt(b, c),
    ensures
        seq_lt(a, c),
{
    let k1 = choose|k: int| lt_at(a, b, k);
    let k2 = choose|k: int| lt_at(b, c, k);
    if k1 <= k2 {
        assert(lt_at(a, c, k1));
    } else {
        assert(lt_at(a, c, k2));
    }
}

/// The result of comparing two strings.
#[derive(Debug, Clone, Copy, PartialEq, Eq, Structural)]
pub enum Order {
    Less,
    Equal,
    Greater,
}

pub open spec fn order_of(a: Seq<char>, b: Seq<char>) -> Order {
    if seq_lt(a, b) {
        Order::Less
    } else if a == b {
        Order::Equal
    } else {
        Order::Greater
    }
}

/// Compares two character sequences.
pub fn compare_chars(a: &Vec<char>, b: &Vec<char>) -> (r: Order)
    ensures
        r == order_of(a@, b@),
        r is Greater ==> seq_lt(b@, a@),
{
    let mut k: usize = 0;
    while k < a.len() && k < b.len() && a[k] == b[k]
        invariant
            k <= a@.len(),
            k <= b@.len(),
            forall|j: int| 0 <= j < k ==> a@[j] == b@[j],
        decreases a@.len() - k,
    {
        k += 1;
    }
    if k == a.len() && k == b.len() {
        assert(a@ =~= b@);
        proof { lemma_lt_irreflexive(a@); }
        Order::Equal
    } else if k == a.len() {
        assert(lt_at(a@, b@, k as int));
        Order::Less
    } else if k == b.len() {
        assert(lt_at(b@, a@, k as int));
        proof { lemma_lt_asymmetric(b@, a@); }
        Order::Greater
    } else if (a[k] as u32) < (b[k] as u32) {
        assert(lt_at(a@, b@, k as int));
        Order::Less
    } else {
        assert(a@[k as int] != b@[k as int]);
        proof { lemma_char_u32_inj(a@[k as int], b@[k as int]); }
        assert((b@[k as int] as u32) < (a@[k as int] as u32));
        assert(lt_at(b@, a@, k as int));
        proof { lemma_lt_asymmetric(b@, a@); }
        Order::Greater
    }
}

/// Compares two strings.
pub fn compare_str(a: &String, b: &String) -> (r: Order)
    ensures
        r == order_of(a@, b@),
        r is Greater ==> seq_lt(b@, a@),
{
    let va = chars_of(a.as_str());
    let vb = chars_of(b.as_str());
    compare_chars(&va, &vb)
}

/// Any two sequences are ordered one way or the other, or equal.
pub proof fn lemma_lt_total(a: Seq<char>, b: Seq<char>)
    ensures
        seq_lt(a, b) || a == b || seq_lt(b, a),
    decreases a.len(),
{
    if a.len() == 0 {
        if b.len() > 0 {
            assert(lt_at(a, b, 0));
        } else {
            assert(a =~= b);
        }
    } else if b.len() == 0 {
        assert(lt_at(b, a, 0));
    } else if a[0] != b[0] {
        if (a[0] as u32) < (b[0] as u32) {
            assert(lt_at(a, b, 0));
        } else {
            lemma_char_u32_inj(a[0], b[0]);
            assert((b[0] as u32) < (a[0] as u32));
            assert(lt_at(b, a, 0));
        }
    } else {
        lemma_lt_total(a.skip(1), b.skip(1));
        if seq_lt(a.skip(1), b.skip(1)) {
            let k = choose|k: int| lt_at(a.skip(1), b.skip(1), k);
            assert forall|j: int| 0 <= j < k + 1 implies a[j] == b[j] by {
                if j > 0 {
                    assert(a.skip(1)[j - 1] == b.skip(1)[j - 1]);
                }
            }
            assert(lt_at(a, b, k + 1));
        } else if a.skip(1) == b.skip(1) {
            assert(a =~= b) by {
                assert forall|j: int| 0 <= j < a.len() implies a[j] == b[j] by {
                    if j > 0 {
                        assert(a.skip(1)[j - 1] == b.skip(1)[j - 1]);
                    }
                }
            }
        } else {
            let k = choose|k: int| lt_at(b.skip(1), a.skip(1), k);
            assert forall|j: int| 0 <= j < k + 1 implies b[j] == a[j] by {
                if j > 0 {
                    assert(b.skip(1)[j - 1] == a.skip(1)[j - 1]);
                }
            }
            assert(lt_at(b, a, k + 1));
        }
    }
}

/// The keys of entries, as character sequences.
pub open spec fn keys_of<V>(entries: Seq<(String, V)>) -> Seq<Seq<char>> {
    entries.map_values(|e: (String, V)| e.0@)
}

/// Keys strictly increasing.
pub open spec fn sorted_keys(keys: Seq<Seq<char>>) -> bool {
    forall|i: int, j: int| 0 <= i < j < keys.len() ==> seq_lt(keys[i], keys[j])
}

/// The first index at or after `i` of an entry with key `k`, if any.
pub open spec fn key_index_from<V>(entries: Seq<(String, V)>, k: Seq<char>, i: int) -> Option<int>
    decreases entries.len() - i,
{
    if i < 0 || i >= entries.len() {
        None
    } else if entries[i].0@ == k {
        Some(i)
    } else {
        key_index_from(entries, k, i + 1)
    }
}

/// The index of key `k` among the entries, if present.
pub open spec fn key_index<V>(entries: Seq<(String, V)>, k: Seq<char>) -> Option<int> {
    key_index_from(entries, k, 0)
}

pub proof fn lemma_key_index_from<V>(e: Seq<(String, V)>, k: Seq<char>, i: int)
    requires
        0 <= i <= e.len(),
    ensures
        key_index_from(e, k, i) matches Some(m) ==> i <= m < e.len() && e[m].0@ == k
            && forall|j: int| i <= j < m ==> e[j].0@ != k,
        key_index_from(e, k, i) is None ==> forall|j: int| i <= j < e.len() ==> e[j].0@ != k,
    decreases e.len() - i,
{
    if i < e.len() && e[i].0@ != k {
        lemma_key_index_from(e, k, i + 1);
    }
}

/// A map from strings, with its entries kept in increasing key order.
#[derive(Debug)]
pub struct StrMap<V> {
    entries: Vec<(String, V)>,
}

impl<V> StrMap<V> {
    /// The entries in increasing key order.
    pub closed spec fn entries(&self) -> Seq<(String, V)> {
        self.entries@
    }

    pub closed spec fn wf(&self) -> bool {
        sorted_keys(keys_of(self.entries@))
    }

    /// The keys in increasing order.
    pub open spec fn keys(&self) -> Seq<Seq<char>> {
        keys_of(self.entries())
    }

    /// The value stored under `k`.
    pub open spec fn spec_get(&self, k: Seq<char>) -> Option<V> {
        match key_index(self.entries(), k) {
            Some(i) => Some(self.entries()[i].1),
            None => None,
        }
    }

    pub proof fn lemma_wf(&self)
        requires
            self.wf(),
        ensures
            sorted_keys(self.keys()),
    {
    }

    pub fn new() -> (r: Self)
        ensures
            r.wf(),
            r.entries() == Seq::<(String, V)>::empty(),
    {
        StrMap { entries: Vec::new() }
    }

    pub fn len(&self) -> (r: usize)
        ensures
            r == self.entries().len(),
    {
        self.entries.len()
    }

    pub fn is_empty(&self) -> (r: bool)
        ensures
            r == (self.entries().len() == 0),
    {
        self.entries.len() == 0
    }

    /// The index of `key`, if present.
    pub fn find(&self, key: &String) -> (r: Option<usize>)
        requires
            self.wf(),
        ensures
            match r {
                Some(i) => i < self.entries().len() && self.entries()[i as int].0@ == key@
                    && key_index(self.entries(), key@) == Some(i as int),
                None => key_index(self.entries(), key@) is None,
            },
    {
        let mut i: usize = 0;
        while i < self.entries.len()
            invariant
                self.wf(),
                i <= self.entries@.len(),
                forall|j: int| 0 <= j < i ==> self.entries@[j].0@ != key@,
            decreases self.entries@.len() - i,
        {
            if crate::text::str_eq(&self.entries[i].0, key) {
                proof { self.lemma_unique_key(i as int, key@); }
                return Some(i);
            }
            i += 1;
        }
        proof { lemma_key_index_from(self.entries@, key@, 0); }
        None
    }

    /// A key stands at one index only.
    pub proof fn lemma_unique_key(&self, i: int, k: Seq<char>)
        requires
            self.wf(),
            0 <= i < self.entries().len(),
            self.entries()[i].0@ == k,
        ensures
            key_index(self.entries(), k) == Some(i),
    {
        lemma_unique_in(self.entries@, i, k);
    }

    pub fn get(&self, key: &String) -> (r: Option<&V>)
        requires
            self.wf(),
        ensures
            match self.spec_get(key@) {
                Some(v) => r == Some(&v),
                None => r is None,
            },
    {
        match self.find(key) {
            Some(i) => Some(&self.entries[i].1),
            None => None,
        }
    }

    pub fn contains_key(&self, key: &String) -> (r: bool)
        requires
            self.wf(),
        ensures
            r == self.spec_get(key@) is Some,
    {
        self.find(key).is_some()
    }

    /// Stores `v` under `key`; an existing value under `key` is replaced and
    /// returned, and a new key takes its place in the order.
    pub fn insert(&mut self, key: String, v: V) -> (r: Option<V>)
        requires
            old(self).wf(),
        ensures
            final(self).wf(),
            match key_index(old(self).entries(), key@) {
                Some(i) => {
                    &&& r == Some(old(self).entries()[i].1)
                    &&& final(self).entries() == old(self).entries().update(i, (old(self).entries()[i].0, v))
                },
                None => {
                    &&& r is None
                    &&& exists|p: int| 0 <= p <= old(self).entries().len()
                        && final(self).entries() == old(self).entries().insert(p, (key, v))
                },
            },
            forall|k: Seq<char>| k != key@ ==> #[trigger] final(self).spec_get(k) == old(self).spec_get(k),
            final(self).spec_get(key@) == Some(v),
    {
        let ghost old_e = self.entries@;
        let mut p: usize = 0;
        let mut stop = false;
        while !stop && p < self.entries.len()
            invariant
                self.entries@ == old_e,
                old(self).entries@ == old_e,
                sorted_keys(keys_of(old_e)),
                p <= old_e.len(),
                forall|j: int| 0 <= j < p ==> seq_lt(old_e[j].0@, key@),
                stop ==> p < old_e.len() && seq_lt(key@, old_e[p as int].0@),
            decreases old_e.len() - p, if stop { 0int } else { 1int },
        {
            let o = compare_str(&self.entries[p].0, &key);
            match o {
                Order::Less => {
                    p += 1;
                },
                Order::Equal => {
                    proof { self.lemma_unique_key(p as int, key@); }
                    let ghost oldk = self.entries@[p as int].0;
                    let (k0, old_v) = self.entries.remove(p);
                    self.entries.insert(p, (k0, v));
                    proof {
                        assert(self.entries@ =~= old_e.update(p as int, (oldk, v)));
                        assert(keys_of(self.entries@) =~= keys_of(old_e));
                        self.lemma_get_after_update(old_e, p as int, key@);
                        assert(key_index(old_e, key@) == Some(p as int));
                        assert(old_v == old_e[p as int].1);
                        assert(self.entries@ == old_e.update(p as int, (old_e[p as int].0, v)));
                    }
                    return Some(old_v);
                },
                Order::Greater => {
                    stop = true;
                },
            }
        }
        proof {
            assert forall|j: int| p <= j < old_e.len() implies seq_lt(key@, old_e[j].0@) by {
                if p < old_e.len() {
                    let ks = keys_of(old_e);
                    if j > p {
                        assert(seq_lt(ks[p as int], ks[j]));
                        lemma_lt_transitive(key@, ks[p as int], ks[j]);
                    }
                }
            }
            assert forall|j: int| 0 <= j < old_e.len() implies old_e[j].0@ != key@ by {
                if j < p {
                    lemma_lt_asymmetric(old_e[j].0@, key@);
                } else {
                    lemma_lt_asymmetric(key@, old_e[j].0@);
                }
            }
        }
        let ghost kk = key@;
        let ghost kv = (key, v);
        self.entries.insert(p, (key, v));
        proof {
            assert(self.entries@ == old_e.insert(p as int, kv));
            lemma_key_index_from(old_e, kk, 0);
            let ne = self.entries@;
            assert(ne =~= old_e.insert(p as int, (ne[p as int].0, v)));
            let ks = keys_of(ne);
            assert forall|i: int, j: int| 0 <= i < j < ks.len() implies seq_lt(ks[i], ks[j]) by {
                let oks = keys_of(old_e);
                if j < p {
                    assert(ks[i] == oks[i] && ks[j] == oks[j]);
                } else if j == p {
                    assert(ks[i] == oks[i]);
                } else if i == p {
                    assert(ks[j] == oks[j - 1]);
                } else if i < p {
                    assert(ks[i] == oks[i] && ks[j] == oks[j - 1]);
                } else {
                    assert(ks[i] == oks[i - 1] && ks[j] == oks[j - 1]);
                }
            }
            self.lemma_get_after_insert(old_e, p as int, kk);
        }
        None
    }

    proof fn lemma_get_after_update(&self, old_e: Seq<(String, V)>, p: int, k: Seq<char>)
        requires
            self.wf(),
            sorted_keys(keys_of(old_e)),
            0 <= p < old_e.len(),
            old_e[p].0@ == k,
            self.entries@ == old_e.update(p, (old_e[p].0, self.entries@[p].1)),
        ensures
            forall|k2: Seq<char>| k2 != k ==> #[trigger] self.spec_get(k2) == (match key_index(old_e, k2) {
                Some(i) => Some(old_e[i].1),
                None => None,
            }),
            self.spec_get(k) == Some(self.entries@[p].1),
    {
        self.lemma_unique_key(p, k);
        assert forall|k2: Seq<char>| k2 != k implies #[trigger] self.spec_get(k2) == (match key_index(old_e, k2) {
            Some(i) => Some(old_e[i].1),
            None => None,
        }) by {
            lemma_key_index_from(old_e, k2, 0);
            lemma_key_index_from(self.entries@, k2, 0);
            match key_index(old_e, k2) {
                Some(i) => {
                    assert(self.entries@[i].0@ == k2);
                    self.lemma_unique_key(i, k2);
                },
                None => {
                    assert forall|i: int| 0 <= i < self.entries@.len() implies self.entries@[i].0@ != k2 by {
                        assert(self.entries@[i].0 == old_e[i].0);
                    }
                },
            }
        }
    }

    proof fn lemma_get_after_insert(&self, old_e: Seq<(String, V)>, p: int, k: Seq<char>)
        requires
            self.wf(),
            sorted_keys(keys_of(old_e)),
            0 <= p <= old_e.len(),
            self.entries@ == old_e.insert(p, self.entries@[p]),
            self.entries@[p].0@ == k,
        ensures
            forall|k2: Seq<char>| k2 != k ==> #[trigger] self.spec_get(k2) == (match key_index(old_e, k2) {
                Some(i) => Some(old_e[i].1),
                None => None,
            }),
            self.spec_get(k) == Some(self.entries@[p].1),
    {
        self.lemma_unique_key(p, k);
        assert forall|k2: Seq<char>| k2 != k implies #[trigger] self.spec_get(k2) == (match key_index(old_e, k2) {
            Some(i) => Some(old_e[i].1),
            None => None,
        }) by {
            lemma_key_index_from(old_e, k2, 0);
            lemma_key_index_from(self.entries@, k2, 0);
            match key_index(old_e, k2) {
                Some(i) => {
                    let ni = if i < p { i } else { i + 1 };
                    assert(self.entries@[ni] == old_e[i]);
                    self.lemma_unique_key(ni, k2);
                },
                None => {
                    assert forall|i: int| 0 <= i < self.entries@.len() implies self.entries@[i].0@ != k2 by {
                        if i < p {
                            assert(self.entries@[i] == old_e[i]);
                        } else if i > p {
                            assert(self.entries@[i] == old_e[i - 1]);
                        }
                    }
                },
            }
        }
    }

    /// The entries, in increasing key order.
    pub fn as_entries(&self) -> (r: &Vec<(String, V)>)
        ensures
            r@ == self.entries(),
    {
        &self.entries
    }

    /// The entries, in increasing key order.
    pub fn into_entries(self) -> (r: Vec<(String, V)>)
        ensures
            r@ == self.entries(),
    {
        self.entries
    }

    /// The values, in increasing key order.
    pub fn into_values(self) -> (r: Vec<V>)
        ensures
            r@ == self.entries().map_values(|e: (String, V)| e.1),
    {
        let mut entries = self.entries;
        let ghost e = entries@;
        let n = entries.len();
        let mut out: Vec<V> = Vec::new();
        let mut k: usize = 0;
        while entries.len() > 0
            invariant
                entries@ == e.subrange(k as int, e.len() as int),
                k + entries@.len() == e.len(),
                n == e.len(),
                out@ == e.subrange(0, k as int).map_values(|x: (String, V)| x.1),
            decreases entries@.len(),
        {
            let (_, v) = entries.remove(0);
            out.push(v);
            assert(e.subrange(0, k + 1).map_values(|x: (String, V)| x.1) =~= e.subrange(0, k as int).map_values(|x: (String, V)| x.1).push(e[k as int].1));
            k += 1;
        }
        assert(e.subrange(0, k as int) =~= e);
        out
    }
}

proof fn lemma_unique_in<V>(e: Seq<(String, V)>, i: int, k: Seq<char>)
    requires
        sorted_keys(keys_of(e)),
        0 <= i < e.len(),
        e[i].0@ == k,
    ensures
        key_index(e, k) == Some(i),
{
    lemma_key_index_from(e, k, 0);
    let ks = keys_of(e);
    match key_index(e, k) {
        Some(m) => {
            if m < i {
                assert(ks[m] == k && ks[i] == k);
                assert(seq_lt(ks[m], ks[i]));
                lemma_lt_irreflexive(k);
            }
        },
        None => {},
    }
}

} // verus!
