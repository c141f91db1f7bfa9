//! The first passes over a namespace's items: the anonymous structs they
//! hold, and the unions to be merged into structs, each named by the path
//! of names that leads to it.
use vstd::prelude::*;
use crate::defs::{Span, Spanned};
use crate::ast::{ArgV, StructDef, Type, args_view, union_view};
use crate::common::{FromNamedSource, NamespaceCtx};
use crate::extract::Children;
use crate::helpers::{NameContext, UnionRecord};
use crate::anonymous::{anon_children, from_child, sourced_view};
use crate::unions::{UnionFound, found_view, identify_from_child, unions_in_child};
use crate::union_check::{UnionError, UnionIssue, is_merge_of, merge_union, operands_issue, union_result, validate_union_record};
use crate::ordmap::StrMap;
use crate::resolution::NamespaceResolution;
use crate::toks::strings_view;

verus! {

/// The extracted structs as recorded: file, name and fields, each made up
/// at the call site.
pub open spec fn recorded_structs(s: Seq<FromNamedSource<Spanned<StructDef>>>) -> Seq<(Seq<char>, Seq<char>, Seq<ArgV>)> {
    s.map_values(|d: FromNamedSource<Spanned<StructDef>>| (d.source@, d.value.value.def.value.name.value.0@, args_view(d.value.value.def.value.args@)))
}

/// The unions found as recorded.
pub open spec fn recorded_unions(s: Seq<Spanned<UnionRecord>>) -> Seq<UnionFound> {
    s.map_values(|r: Spanned<UnionRecord>| (
        union_view((*r.value.union_ref).value.types@),
        strings_view(r.value.context_stack@),
        r.value.in_oneof,
        r.value.variant_index,
    ))
}

/// The unions inside the items, each item's walk starting from its name.
pub open spec fn unions_in_children(ch: Children) -> Seq<UnionFound>
    decreases ch.len(),
{
    if ch.len() == 0 {
        Seq::empty()
    } else {
        unions_in_children(ch.drop_last()) + unions_in_child(seq![ch.last().0.name.value.0@], ch.last().1.value)
    }
}

/// Records, for every item in order, the structs its anonymous structs
/// become, named by the path that leads to them.
pub fn anonymous_structs(ns: &NamespaceCtx, resolution: &mut NamespaceResolution)
    ensures
        recorded_structs(final(resolution).anonymous_structs@)
            == recorded_structs(old(resolution).anonymous_structs@) + anon_children(Seq::empty(), ns.children@),
        forall|i: int| old(resolution).anonymous_structs@.len() <= i < final(resolution).anonymous_structs@.len()
            ==> (#[trigger] final(resolution).anonymous_structs@[i]).value.span == Span::CallSite,
        final(resolution).identified_unions == old(resolution).identified_unions,
        final(resolution).union_structs == old(resolution).union_structs,
        final(resolution).resolved_aliases == old(resolution).resolved_aliases,
        final(resolution).versions == old(resolution).versions,
        final(resolution).errors == old(resolution).errors,
{
    let ghost ch = ns.children@;
    let ghost base = recorded_structs(resolution.anonymous_structs@);
    let ghost n0 = resolution.anonymous_structs@.len();
    let mut name_gen = NameContext::new();
    let mut i: usize = 0;
    assert(ch.subrange(0, 0) =~= Seq::<(crate::paths::NamedItemContext, FromNamedSource<crate::common::NamespaceChild>)>::empty());
    assert(base + Seq::empty() =~= base);
    while i < ns.children.len()
        invariant
            i <= ch.len(),
            ch == ns.children@,
            name_gen.stack@.len() == 0,
            n0 <= resolution.anonymous_structs@.len(),
            old(resolution).anonymous_structs@.len() == n0,
            base == recorded_structs(old(resolution).anonymous_structs@),
            recorded_structs(resolution.anonymous_structs@) == base + anon_children(Seq::empty(), ch.subrange(0, i as int)),
            forall|x: int| n0 <= x < resolution.anonymous_structs@.len()
                ==> (#[trigger] resolution.anonymous_structs@[x]).value.span == Span::CallSite,
            resolution.identified_unions == old(resolution).identified_unions,
            resolution.union_structs == old(resolution).union_structs,
            resolution.resolved_aliases == old(resolution).resolved_aliases,
            resolution.versions == old(resolution).versions,
            resolution.errors == old(resolution).errors,
        decreases ch.len() - i,
    {
        let child = &ns.children[i];
        name_gen.push(child.0.name.value.0.clone());
        proof {
            assert(strings_view(name_gen.stack@) =~= seq![child.0.name.value.0@]);
        }
        let mut extracted = from_child(&mut name_gen, &child.1);
        let ghost orig = extracted@;
        let total = extracted.len();
        let ghost before = resolution.anonymous_structs@;
        let mut k: usize = 0;
        while extracted.len() > 0
            invariant
                k <= orig.len(),
                orig.len() == total,
                extracted@ == orig.subrange(k as int, orig.len() as int),
                n0 <= before.len(),
                resolution.anonymous_structs@.len() == before.len() + k,
                recorded_structs(resolution.anonymous_structs@) == recorded_structs(before) + sourced_view(orig.subrange(0, k as int)),
                forall|x: int| n0 <= x < resolution.anonymous_structs@.len()
                    ==> (#[trigger] resolution.anonymous_structs@[x]).value.span == Span::CallSite,
                forall|x: int| n0 <= x < before.len() ==> (#[trigger] before[x]).value.span == Span::CallSite,
                resolution.identified_unions == old(resolution).identified_unions,
                resolution.union_structs == old(resolution).union_structs,
                resolution.resolved_aliases == old(resolution).resolved_aliases,
                resolution.versions == old(resolution).versions,
                resolution.errors == old(resolution).errors,
            decreases extracted@.len(),
        {
            assert(extracted@.len() == orig.len() - k);
            let it = extracted.remove(0);
            let ghost r0 = resolution.anonymous_structs@;
            proof {
                assert(it == orig[k as int]);
            }
            resolution.anonymous_structs.push(FromNamedSource { source: it.source, value: Spanned::call_site(it.value) });
            proof {
                assert(orig.subrange(0, k + 1) =~= orig.subrange(0, k as int).push(orig[k as int]));
                assert(recorded_structs(resolution.anonymous_structs@) =~= recorded_structs(r0).push(sourced_view(orig)[k as int]));
                assert(sourced_view(orig.subrange(0, k + 1)) =~= sourced_view(orig.subrange(0, k as int)).push(sourced_view(orig)[k as int]));
                assert(extracted@ =~= orig.subrange(k + 1, orig.len() as int));
            }
            k += 1;
        }
        name_gen.pop();
        proof {
            assert(k == orig.len());
            assert(orig.subrange(0, orig.len() as int) =~= orig);
            let sub = ch.subrange(0, i + 1);
            assert(sub.drop_last() =~= ch.subrange(0, i as int));
            assert(sub.last() == ch[i as int]);
            assert(strings_view(Seq::<String>::empty().push(child.0.name.value.0)) =~= Seq::<Seq<char>>::empty().push(child.0.name.value.0@));
        }
        i += 1;
    }
    assert(ch.subrange(0, ch.len() as int) =~= ch);
}

/// Records, for every item in order, the unions it holds, each with the
/// path of names that leads to it.
pub fn identify_unions(ns: &NamespaceCtx, resolution: &mut NamespaceResolution)
    ensures
        recorded_unions(final(resolution).identified_unions@)
            == recorded_unions(old(resolution).identified_unions@) + unions_in_children(ns.children@),
        forall|i: int| old(resolution).identified_unions@.len() <= i < final(resolution).identified_unions@.len()
            ==> (#[trigger] final(resolution).identified_unions@[i]).span == Span::CallSite,
        final(resolution).anonymous_structs == old(resolution).anonymous_structs,
        final(resolution).union_structs == old(resolution).union_structs,
        final(resolution).resolved_aliases == old(resolution).resolved_aliases,
        final(resolution).versions == old(resolution).versions,
        final(resolution).errors == old(resolution).errors,
{
    let ghost ch = ns.children@;
    let ghost base = recorded_unions(resolution.identified_unions@);
    let ghost n0 = resolution.identified_unions@.len();
    let mut name_gen = NameContext::new();
    let mut i: usize = 0;
    assert(base + Seq::empty() =~= base);
    while i < ns.children.len()
        invariant
            i <= ch.len(),
            ch == ns.children@,
            name_gen.stack@.len() == 0,
            n0 <= resolution.identified_unions@.len(),
            old(resolution).identified_unions@.len() == n0,
            base == recorded_unions(old(resolution).identified_unions@),
            recorded_unions(resolution.identified_unions@) == base + unions_in_children(ch.subrange(0, i as int)),
            forall|x: int| n0 <= x < resolution.identified_unions@.len()
                ==> (#[trigger] resolution.identified_unions@[x]).span == Span::CallSite,
            resolution.anonymous_structs == old(resolution).anonymous_structs,
            resolution.union_structs == old(resolution).union_structs,
            resolution.resolved_aliases == old(resolution).resolved_aliases,
            resolution.versions == old(resolution).versions,
            resolution.errors == old(resolution).errors,
        decreases ch.len() - i,
    {
        let child = &ns.children[i];
        name_gen.push(child.0.name.value.0.clone());
        proof {
            assert(strings_view(name_gen.stack@) =~= seq![child.0.name.value.0@]);
        }
        let mut found = identify_from_child(&mut name_gen, &child.1);
        let ghost orig = found@;
        let total = found.len();
        let ghost before = resolution.identified_unions@;
        let mut k: usize = 0;
        while found.len() > 0
            invariant
                k <= orig.len(),
                orig.len() == total,
                found@ == orig.subrange(k as int, orig.len() as int),
                n0 <= before.len(),
                resolution.identified_unions@.len() == before.len() + k,
                recorded_unions(resolution.identified_unions@) == recorded_unions(before) + found_view(orig.subrange(0, k as int)),
                forall|x: int| n0 <= x < resolution.identified_unions@.len()
                    ==> (#[trigger] resolution.identified_unions@[x]).span == Span::CallSite,
                forall|x: int| n0 <= x < before.len() ==> (#[trigger] before[x]).span == Span::CallSite,
                resolution.anonymous_structs == old(resolution).anonymous_structs,
                resolution.union_structs == old(resolution).union_structs,
                resolution.resolved_aliases == old(resolution).resolved_aliases,
                resolution.versions == old(resolution).versions,
                resolution.errors == old(resolution).errors,
            decreases found@.len(),
        {
            assert(found@.len() == orig.len() - k);
            let u = found.remove(0);
            let ghost r0 = resolution.identified_unions@;
            proof {
                assert(u == orig[k as int]);
            }
            resolution.identified_unions.push(Spanned::call_site(u.value));
            proof {
                assert(orig.subrange(0, k + 1) =~= orig.subrange(0, k as int).push(orig[k as int]));
                assert(recorded_unions(resolution.identified_unions@) =~= recorded_unions(r0).push(found_view(orig)[k as int]));
                assert(found_view(orig.subrange(0, k + 1)) =~= found_view(orig.subrange(0, k as int)).push(found_view(orig)[k as int]));
                assert(found@ =~= orig.subrange(k + 1, orig.len() as int));
            }
            k += 1;
        }
        name_gen.pop();
        proof {
            assert(orig.subrange(0, orig.len() as int) =~= orig);
            let sub = ch.subrange(0, i + 1);
            assert(sub.drop_last() =~= ch.subrange(0, i as int));
            assert(sub.last() == ch[i as int]);
        }
        i += 1;
    }
    assert(ch.subrange(0, ch.len() as int) =~= ch);
}

/// The first issue among the unions found, in order.
pub open spec fn records_issue(s: Seq<Spanned<UnionRecord>>, ns: NamespaceCtx, resolved: StrMap<Spanned<Type>>) -> Option<UnionIssue>
    decreases s.len(),
{
    if s.len() == 0 {
        None
    } else {
        match records_issue(s.drop_last(), ns, resolved) {
            Some(x) => Some(x),
            None => operands_issue(union_view((*s.last().value.union_ref).value.types@), ns, resolved),
        }
    }
}

proof fn lemma_records_prefix(s: Seq<Spanned<UnionRecord>>, ns: NamespaceCtx, resolved: StrMap<Spanned<Type>>, n: int)
    requires
        0 < n <= s.len(),
        records_issue(s.subrange(0, n), ns, resolved) is Some,
    ensures
        records_issue(s, ns, resolved) == records_issue(s.subrange(0, n), ns, resolved),
    decreases s.len() - n,
{
    if n == s.len() {
        assert(s.subrange(0, n) =~= s);
    } else {
        assert(s.subrange(0, n + 1).drop_last() =~= s.subrange(0, n));
        lemma_records_prefix(s, ns, resolved, n + 1);
    }
}

/// Checks every union found, in order: each operand must be a struct.
pub fn validate_unions(ns: &NamespaceCtx, resolution: &NamespaceResolution) -> (r: Result<(), UnionError>)
    requires
        resolution.resolved_aliases.wf(),
    ensures
        union_result(r) == records_issue(resolution.identified_unions@, *ns, resolution.resolved_aliases),
{
    let ghost s = resolution.identified_unions@;
    let mut i: usize = 0;
    while i < resolution.identified_unions.len()
        invariant
            i <= s.len(),
            s == resolution.identified_unions@,
            resolution.resolved_aliases.wf(),
            records_issue(s.subrange(0, i as int), *ns, resolution.resolved_aliases) is None,
        decreases s.len() - i,
    {
        proof {
            assert(s.subrange(0, i + 1).drop_last() =~= s.subrange(0, i as int));
        }
        let r = validate_union_record(&resolution.identified_unions[i].value, ns, &resolution.resolved_aliases);
        if r.is_err() {
            proof {
                lemma_records_prefix(s, *ns, resolution.resolved_aliases, i + 1);
            }
            return r;
        }
        i += 1;
    }
    assert(s.subrange(0, s.len() as int) =~= s);
    Ok(())
}

/// Merges every union found, in order, into the struct it becomes.
pub fn merge_unions(ns: &NamespaceCtx, resolution: &mut NamespaceResolution) -> (r: Result<(), UnionError>)
    ensures
        r is Ok,
        final(resolution).union_structs@.len() == old(resolution).union_structs@.len() + old(resolution).identified_unions@.len(),
        forall|i: int| 0 <= i < old(resolution).union_structs@.len() ==> #[trigger] final(resolution).union_structs@[i] == old(resolution).union_structs@[i],
        forall|i: int| 0 <= i < old(resolution).identified_unions@.len() ==> {
            let d = #[trigger] final(resolution).union_structs@[old(resolution).union_structs@.len() + i];
            &&& d.value.span == Span::CallSite
            &&& is_merge_of(d.source@, d.value.value, old(resolution).identified_unions@[i].value, *ns)
        },
        final(resolution).identified_unions == old(resolution).identified_unions,
        final(resolution).anonymous_structs == old(resolution).anonymous_structs,
        final(resolution).resolved_aliases == old(resolution).resolved_aliases,
        final(resolution).versions == old(resolution).versions,
        final(resolution).errors == old(resolution).errors,
{
    let ghost n0 = resolution.union_structs@.len();
    let ghost before = resolution.union_structs@;
    let mut i: usize = 0;
    while i < resolution.identified_unions.len()
        invariant
            i <= resolution.identified_unions@.len(),
            n0 == old(resolution).union_structs@.len(),
            before == old(resolution).union_structs@,
            resolution.union_structs@.len() == n0 + i,
            forall|x: int| 0 <= x < n0 ==> #[trigger] resolution.union_structs@[x] == before[x],
            forall|x: int| 0 <= x < i ==> {
                let d = #[trigger] resolution.union_structs@[n0 + x];
                &&& d.value.span == Span::CallSite
                &&& is_merge_of(d.source@, d.value.value, resolution.identified_unions@[x].value, *ns)
            },
            resolution.identified_unions == old(resolution).identified_unions,
            resolution.anonymous_structs == old(resolution).anonymous_structs,
            resolution.resolved_aliases == old(resolution).resolved_aliases,
            resolution.versions == old(resolution).versions,
            resolution.errors == old(resolution).errors,
        decreases resolution.identified_unions@.len() - i,
    {
        let merged = match merge_union(&resolution.identified_unions[i].value, ns) {
            Ok(m) => m,
            Err(e) => {
                return Err(e);
            },
        };
        resolution.union_structs.push(FromNamedSource { source: merged.source, value: Spanned::call_site(merged.value) });
        proof {
            assert forall|x: int| 0 <= x < i + 1 implies {
                let d = #[trigger] resolution.union_structs@[n0 + x];
                &&& d.value.span == Span::CallSite
                &&& is_merge_of(d.source@, d.value.value, resolution.identified_unions@[x].value, *ns)
            } by {}
        }
        i += 1;
    }
    Ok(())
}

} // verus!
