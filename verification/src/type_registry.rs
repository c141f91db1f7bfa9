//! The registry of every type the compiler has seen, by qualified path, and
//! how a reference written in a namespace is resolved against it.
use vstd::prelude::*;
use crate::defs::{RawSpan, Span, Spanned};
use crate::toks::{IdentToken, join_segments};
use crate::ast::{PathOrIdent, reference_text};
use crate::common::{Definition, FromNamedSource, NamespaceCtx, ResolvedType};
use crate::paths::{NamedItemContext, NamedItemContextV, RefContext, RefContextV};
use crate::pathord::{lemma_path_lt_asymmetric, lemma_path_lt_transitive, path_lt};
use crate::ordmap::Order;
use crate::type_graph::{compare_items, item_views, key_path, sorted_keys};
use crate::extract::{TypeExtractor, candidates, imports_view};
use crate::stream::share;

verus! {

/// A registered definition, with the file and span it comes from.
pub type Registered = FromNamedSource<Spanned<ResolvedType>>;

/// What a registration records, files by their path.
pub open spec fn registered_view(r: Registered) -> (Seq<char>, Span, Definition, NamedItemContextV) {
    (r.source@, r.value.span, r.value.value.kind, r.value.value.qualified_path@)
}

pub open spec fn entry_keys(e: Seq<(NamedItemContext, Registered)>) -> Seq<NamedItemContextV> {
    e.map_values(|x: (NamedItemContext, Registered)| x.0@)
}

/// The first of `cands` that `keys` holds.
pub open spec fn first_known(cands: Seq<NamedItemContextV>, keys: Seq<NamedItemContextV>) -> Option<NamedItemContextV>
    decreases cands.len(),
{
    if cands.len() == 0 {
        None
    } else {
        match first_known(cands.drop_last(), keys) {
            Some(k) => Some(k),
            None => if keys.contains(cands.last()) { Some(cands.last()) } else { None },
        }
    }
}

/// The item `name` of the context `ctx`.
pub open spec fn item_key(ctx: RefContextV, name: Seq<char>) -> NamedItemContextV {
    NamedItemContextV { context: ctx, name }
}

/// The printed qualified path of an item.
pub open spec fn item_text(k: NamedItemContextV) -> Seq<char> {
    join_segments(seq![k.context.package] + k.context.namespace + seq![k.name])
}

/// Why a registration or a lookup failed.
#[derive(Debug)]
pub enum RegistryError {
    /// A type of this qualified path is registered already.
    DuplicateType { name: String, span: RawSpan },
    /// No candidate of the reference is registered.
    UndefinedType { name: String },
}

/// The types of all namespaces, in path order, each once.
pub struct TypeRegistry {
    entries: Vec<(NamedItemContext, Registered)>,
}

/// A copy of a definition handle: the same definition.
fn dup_definition(d: &Definition) -> (r: Definition)
    ensures
        r == *d,
{
    match d {
        Definition::Struct(a) => Definition::Struct(share(a)),
        Definition::Enum(a) => Definition::Enum(share(a)),
        Definition::OneOf(a) => Definition::OneOf(share(a)),
        Definition::Error(a) => Definition::Error(share(a)),
        Definition::TypeAlias(a) => Definition::TypeAlias(share(a)),
        Definition::Operation(a) => Definition::Operation(share(a)),
    }
}

fn dup_registered(r: &Registered) -> (c: Registered)
    ensures
        registered_view(c) == registered_view(*r),
{
    FromNamedSource {
        source: r.source.clone(),
        value: Spanned {
            span: r.value.span,
            value: ResolvedType {
                kind: dup_definition(&r.value.value.kind),
                qualified_path: r.value.value.qualified_path.duplicate(),
            },
        },
    }
}

impl TypeRegistry {
    pub closed spec fn entries(&self) -> Seq<(NamedItemContext, Registered)> {
        self.entries@
    }

    pub closed spec fn wf(&self) -> bool {
        sorted_keys(entry_keys(self.entries@))
    }

    pub open spec fn keys(&self) -> Seq<NamedItemContextV> {
        entry_keys(self.entries())
    }

    /// The registry holds `e` under `k`.
    pub open spec fn holds(&self, k: NamedItemContextV, e: (Seq<char>, Span, Definition, NamedItemContextV)) -> bool {
        exists|i: int| 0 <= i < self.entries().len() && self.entries()[i].0@ == k && registered_view(#[trigger] self.entries()[i].1) == e
    }

    /// What the registry holds under `k`, if anything.
    pub open spec fn lookup(&self, k: NamedItemContextV) -> Option<(Seq<char>, Span, Definition, NamedItemContextV)> {
        if exists|e: (Seq<char>, Span, Definition, NamedItemContextV)| self.holds(k, e) {
            Some(choose|e: (Seq<char>, Span, Definition, NamedItemContextV)| self.holds(k, e))
        } else {
            None
        }
    }

    /// A registry holds one entry under each of its keys and none elsewhere.
    pub proof fn lemma_lookup(&self, k: NamedItemContextV)
        requires
            self.wf(),
        ensures
            self.lookup(k) is Some <==> self.keys().contains(k),
            forall|e: (Seq<char>, Span, Definition, NamedItemContextV)| self.holds(k, e) ==> self.lookup(k) == Some(e),
    {
        let es = self.entries();
        if self.keys().contains(k) {
            let i = choose|i: int| 0 <= i < self.keys().len() && self.keys()[i] == k;
            assert(self.holds(k, registered_view(es[i].1)));
        }
        if exists|e: (Seq<char>, Span, Definition, NamedItemContextV)| self.holds(k, e) {
            let e = choose|e: (Seq<char>, Span, Definition, NamedItemContextV)| self.holds(k, e);
            let i = choose|i: int| 0 <= i < es.len() && es[i].0@ == k && registered_view(#[trigger] es[i].1) == e;
            assert(self.keys()[i] == k);
        }
        assert forall|e: (Seq<char>, Span, Definition, NamedItemContextV)| self.holds(k, e) implies self.lookup(k) == Some(e) by {
            let e2 = choose|e: (Seq<char>, Span, Definition, NamedItemContextV)| self.holds(k, e);
            let i = choose|i: int| 0 <= i < es.len() && es[i].0@ == k && registered_view(#[trigger] es[i].1) == e;
            let j = choose|j: int| 0 <= j < es.len() && es[j].0@ == k && registered_view(#[trigger] es[j].1) == e2;
            if i != j {
                assert(self.keys()[i] == k && self.keys()[j] == k);
                if i < j {
                    lemma_path_lt_asymmetric(key_path(self.keys()[i]), key_path(self.keys()[j]));
                } else {
                    lemma_path_lt_asymmetric(key_path(self.keys()[j]), key_path(self.keys()[i]));
                }
            }
        }
    }

    pub fn new() -> (r: Self)
        ensures
            r.wf(),
            r.entries().len() == 0,
    {
        TypeRegistry { entries: Vec::new() }
    }

    /// The index of `k`, if registered.
    fn find(&self, k: &NamedItemContext) -> (r: Option<usize>)
        ensures
            match r {
                Some(i) => i < self.entries@.len() && self.entries@[i as int].0@ == k@,
                None => !entry_keys(self.entries@).contains(k@),
            },
    {
        let mut i: usize = 0;
        while i < self.entries.len()
            invariant
                i <= self.entries@.len(),
                forall|j: int| 0 <= j < i ==> self.entries@[j].0@ != k@,
            decreases self.entries@.len() - i,
        {
            if self.entries[i].0.same(k) {
                return Some(i);
            }
            i += 1;
        }
        proof {
            if entry_keys(self.entries@).contains(k@) {
                let j = choose|j: int| 0 <= j < entry_keys(self.entries@).len() && entry_keys(self.entries@)[j] == k@;
                assert(self.entries@[j].0@ == k@);
            }
        }
        None
    }

    /// Registers `name` in `context`, defined by `kind` at `span` of the
    /// file `source`; a path registered already is refused.
    pub fn register(&mut self, context: &RefContext, name: &Spanned<IdentToken>, kind: Definition, span: Span, source: String) -> (r: Result<(), RegistryError>)
        requires
            old(self).wf(),
        ensures
            final(self).wf(),
            old(self).keys().contains(item_key(context@, name.value.0@)) ==> {
                &&& r matches Err(RegistryError::DuplicateType { name: n, span: s })
                &&& n@ == item_text(item_key(context@, name.value.0@))
                &&& s == span.spec_raw()
                &&& final(self).entries() == old(self).entries()
            },
            !old(self).keys().contains(item_key(context@, name.value.0@)) ==> {
                &&& r is Ok
                &&& exists|p: int| #![trigger final(self).entries()[p]] 0 <= p <= old(self).entries().len()
                    && entry_keys(final(self).entries()) == entry_keys(old(self).entries()).insert(p, item_key(context@, name.value.0@))
                    && final(self).entries().remove(p) == old(self).entries()
                    && registered_view(final(self).entries()[p].1) == (source@, Span::Known(span.spec_raw()), kind, item_key(context@, name.value.0@))
            },
    {
        let raw = span.span();
        let path = context.item(Spanned { span: name.span, value: IdentToken(name.value.0.clone()) });
        let ghost pv = path@;
        assert(pv == item_key(context@, name.value.0@));
        let ghost old_entries = self.entries@;
        let ghost ks = entry_keys(old_entries);
        let mut p: usize = 0;
        let mut stop = false;
        while !stop && p < self.entries.len()
            invariant
                self.entries@ == old_entries,
                old(self).entries@ == old_entries,
                pv == item_key(context@, name.value.0@),
                raw == span.spec_raw(),
                ks == entry_keys(old_entries),
                sorted_keys(ks),
                path@ == pv,
                p <= old_entries.len(),
                forall|j: int| 0 <= j < p ==> path_lt(key_path(ks[j]), key_path(pv)),
                stop ==> p < old_entries.len() && path_lt(key_path(pv), key_path(ks[p as int])),
            decreases old_entries.len() - p, if stop { 0int } else { 1int },
        {
            match compare_items(&self.entries[p].0, &path) {
                Order::Less => {
                    p += 1;
                },
                Order::Equal => {
                    assert(ks[p as int] == pv);
                    assert(ks.contains(pv));
                    let shown = path.display();
                    assert(shown@ == item_text(pv));
                    return Err(RegistryError::DuplicateType { name: shown, span: raw });
                },
                Order::Greater => {
                    stop = true;
                },
            }
        }
        proof {
            assert forall|j: int| p <= j < ks.len() implies path_lt(key_path(pv), key_path(ks[j])) by {
                if j > p {
                    lemma_path_lt_transitive(key_path(pv), key_path(ks[p as int]), key_path(ks[j]));
                }
            }
            assert(!ks.contains(pv)) by {
                if ks.contains(pv) {
                    let j = choose|j: int| 0 <= j < ks.len() && ks[j] == pv;
                    if j < p {
                        lemma_path_lt_asymmetric(key_path(ks[j]), key_path(pv));
                    } else {
                        lemma_path_lt_asymmetric(key_path(pv), key_path(ks[j]));
                    }
                }
            }
        }
        let qualified = path.duplicate();
        let entry = FromNamedSource {
            source,
            value: Spanned { span: Span::Known(raw), value: ResolvedType { kind, qualified_path: qualified } },
        };
        let ghost e = (path, entry);
        self.entries.insert(p, (path, entry));
        proof {
            assert(self.entries@ == old_entries.insert(p as int, e));
            let nks = entry_keys(self.entries@);
            assert(nks =~= ks.insert(p as int, pv));
            assert(self.entries@.remove(p as int) =~= old_entries);
            assert forall|i: int, j: int| 0 <= i < j < nks.len() implies path_lt(key_path(nks[i]), key_path(nks[j])) by {
                if j < p {
                    assert(nks[i] == ks[i] && nks[j] == ks[j]);
                } else if j == p {
                    assert(nks[i] == ks[i]);
                } else if i == p {
                    assert(nks[j] == ks[j - 1]);
                } else if i < p {
                    assert(nks[i] == ks[i] && nks[j] == ks[j - 1]);
                } else {
                    assert(nks[i] == ks[i - 1] && nks[j] == ks[j - 1]);
                }
            }
            assert(self.entries@[p as int] == e);
            assert(registered_view(self.entries@[p as int].1) == (source@, Span::Known(span.spec_raw()), kind, pv));
            assert(registered_view(self.entries()[p as int].1) == (source@, Span::Known(span.spec_raw()), kind, pv));
            assert(entry_keys(self.entries()) == entry_keys(old(self).entries()).insert(p as int, pv));
        }
        Ok(())
    }

    /// The definition registered under exactly `context`.
    pub fn get(&self, context: &NamedItemContext) -> (r: Option<Registered>)
        ensures
            r is Some <==> self.keys().contains(context@),
            r matches Some(x) ==> self.holds(context@, registered_view(x)),
    {
        match self.find(context) {
            Some(i) => {
                let x = dup_registered(&self.entries[i].1);
                assert(self.entries()[i as int].0@ == context@ && registered_view(self.entries()[i as int].1) == registered_view(x));
                assert(self.keys()[i as int] == context@);
                Some(x)
            },
            None => None,
        }
    }

    /// The definition a reference written in `context` of `ns` denotes: the
    /// first of its candidates that is registered.
    pub fn resolve(&self, context: &RefContext, reference: &PathOrIdent, ns: &NamespaceCtx) -> (r: Option<Registered>)
        ensures
            match first_known(candidates(reference@, context@, imports_view(ns.imports@)), self.keys()) {
                Some(k) => r matches Some(x) && self.holds(k, registered_view(x)),
                None => r is None,
            },
    {
        let cands = TypeExtractor::generate_candidates(reference, context, ns);
        let ghost cv = item_views(cands@);
        let mut k: usize = 0;
        while k < cands.len()
            invariant
                k <= cands@.len(),
                cv == item_views(cands@),
                cv == candidates(reference@, context@, imports_view(ns.imports@)),
                cv.len() == cands@.len(),
                first_known(cv.subrange(0, k as int), self.keys()) is None,
            decreases cands@.len() - k,
        {
            proof {
                assert(cv.subrange(0, k + 1).drop_last() =~= cv.subrange(0, k as int));
                assert(cv.subrange(0, k + 1).last() == cands@[k as int]@);
            }
            match self.find(&cands[k]) {
                Some(i) => {
                    let x = dup_registered(&self.entries[i].1);
                    proof {
                        assert(self.keys()[i as int] == cv[k as int]);
                        assert(self.keys().contains(cv[k as int]));
                        lemma_first_known_prefix(cv, self.keys(), k as int + 1);
                        assert(self.entries()[i as int].0@ == cv[k as int]
                            && registered_view(self.entries()[i as int].1) == registered_view(x));
                    }
                    return Some(x);
                },
                None => {},
            }
            k += 1;
        }
        assert(cv.subrange(0, cv.len() as int) =~= cv);
        None
    }

    /// The same as `resolve`.
    pub fn resolve_if_valid(&self, context: &RefContext, reference: &PathOrIdent, ns: &NamespaceCtx) -> (r: Option<Registered>)
        ensures
            match first_known(candidates(reference@, context@, imports_view(ns.imports@)), self.keys()) {
                Some(k) => r matches Some(x) && self.holds(k, registered_view(x)),
                None => r is None,
            },
    {
        self.resolve(context, reference, ns)
    }

    /// `resolve`, with an undefined reference as an error naming it.
    pub fn resolve_required(&self, context: &RefContext, reference: &PathOrIdent, ns: &NamespaceCtx) -> (r: Result<Registered, RegistryError>)
        ensures
            match first_known(candidates(reference@, context@, imports_view(ns.imports@)), self.keys()) {
                Some(k) => r matches Ok(x) && self.holds(k, registered_view(x)),
                None => r matches Err(RegistryError::UndefinedType { name }) && name@ == reference_text(reference@),
            },
    {
        match self.resolve(context, reference, ns) {
            Some(x) => Ok(x),
            None => Err(RegistryError::UndefinedType { name: reference.display() }),
        }
    }

    /// Whether the reference denotes a registered type.
    pub fn is_valid(&self, context: &RefContext, reference: &PathOrIdent, ns: &NamespaceCtx) -> (r: bool)
        ensures
            r == first_known(candidates(reference@, context@, imports_view(ns.imports@)), self.keys()) is Some,
    {
        self.resolve(context, reference, ns).is_some()
    }

    /// Every registered type with its file and span, in path order.
    pub fn all_types(&self) -> (r: Vec<(NamedItemContext, String, Span)>)
        ensures
            r@.len() == self.entries().len(),
            forall|i: int| 0 <= i < r@.len() ==> {
                &&& (#[trigger] r@[i]).0@ == self.entries()[i].0@
                &&& r@[i].1@ == self.entries()[i].1.source@
                &&& r@[i].2 == self.entries()[i].1.value.span
            },
    {
        let mut out: Vec<(NamedItemContext, String, Span)> = Vec::new();
        let mut i: usize = 0;
        while i < self.entries.len()
            invariant
                i <= self.entries@.len(),
                out@.len() == i,
                forall|j: int| 0 <= j < i ==> {
                    &&& (#[trigger] out@[j]).0@ == self.entries@[j].0@
                    &&& out@[j].1@ == self.entries@[j].1.source@
                    &&& out@[j].2 == self.entries@[j].1.value.span
                },
            decreases self.entries@.len() - i,
        {
            let e = &self.entries[i];
            out.push((e.0.duplicate(), e.1.source.clone(), e.1.value.span));
            i += 1;
        }
        out
    }
}

/// Once a candidate is known, the first known one is found among the
/// candidates up to it.
proof fn lemma_first_known_prefix(cands: Seq<NamedItemContextV>, keys: Seq<NamedItemContextV>, n: int)
    requires
        0 < n <= cands.len(),
        first_known(cands.subrange(0, n - 1), keys) is None,
        keys.contains(cands[n - 1]),
    ensures
        first_known(cands, keys) == Some(cands[n - 1]),
    decreases cands.len() - n,
{
    let s = cands.subrange(0, n);
    assert(s.drop_last() =~= cands.subrange(0, n - 1));
    assert(first_known(s, keys) == Some(cands[n - 1]));
    lemma_first_known_extend(cands, keys, n);
}

/// Extending the candidates keeps a first known one.
proof fn lemma_first_known_extend(cands: Seq<NamedItemContextV>, keys: Seq<NamedItemContextV>, n: int)
    requires
        0 <= n <= cands.len(),
        first_known(cands.subrange(0, n), keys) is Some,
    ensures
        first_known(cands, keys) == first_known(cands.subrange(0, n), keys),
    decreases cands.len() - n,
{
    if n == cands.len() {
        assert(cands.subrange(0, n) =~= cands);
    } else {
        let s = cands.subrange(0, n + 1);
        assert(s.drop_last() =~= cands.subrange(0, n));
        lemma_first_known_extend(cands, keys, n + 1);
    }
}

} // verus!
