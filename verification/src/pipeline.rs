//! Resolving a namespace: the passes over its items, run in order, each on
//! what the passes before it recorded. The first pass that refuses the
//! namespace ends the run.
use vstd::prelude::*;
use crate::defs::Span;
use crate::common::NamespaceCtx;
use crate::anonymous::anon_children;
use crate::phases::{anonymous_structs, identify_unions, merge_unions, records_issue, recorded_structs, recorded_unions, unions_in_children, validate_unions};
use crate::union_check::{UnionError, is_merge_of, union_result};
use crate::alias_resolve::{AliasError, aliases_outcome, resolve_type_aliases};
use crate::metadata::{MetadataError, errors_outcome, resolve_error_types, resolve_versions, versions_outcome};
use crate::validation::{ValidationError, children_issue, result_issue, validate_all_references};
use crate::extract::imports_view;
use crate::resolution::NamespaceResolution;
use crate::union_or_phase::{UnionOrPassError, or_trace, pass_issue, resolve_union_or};
use crate::ordmap::StrMap;
use crate::defs::Spanned;
use crate::ast::Type;
use crate::type_registry::TypeRegistry;

verus! {

/// Why resolving a namespace stopped, by the pass that refused it.
#[derive(Debug)]
pub enum ResolveError {
    Alias(AliasError),
    UnionOr(UnionOrPassError),
    Union(UnionError),
    Version(MetadataError),
    ErrorType(MetadataError),
    Reference(ValidationError),
}

/// What the alias pass answered, as far as a run's result shows it.
pub open spec fn alias_part(r: Result<NamespaceResolution, ResolveError>) -> Result<(), AliasError> {
    match r {
        Err(ResolveError::Alias(e)) => Err(e),
        _ => Ok(()),
    }
}

/// What the `&|` pass answered.
pub open spec fn union_or_part(r: Result<NamespaceResolution, ResolveError>) -> Result<(), UnionOrPassError> {
    match r {
        Err(ResolveError::UnionOr(e)) => Err(e),
        _ => Ok(()),
    }
}

/// What the union check answered.
pub open spec fn union_part(r: Result<NamespaceResolution, ResolveError>) -> Result<(), UnionError> {
    match r {
        Err(ResolveError::Union(e)) => Err(e),
        _ => Ok(()),
    }
}

/// What the version pass answered.
pub open spec fn version_part(r: Result<NamespaceResolution, ResolveError>) -> Result<(), MetadataError> {
    match r {
        Err(ResolveError::Version(e)) => Err(e),
        _ => Ok(()),
    }
}

/// What the error type pass answered.
pub open spec fn error_part(r: Result<NamespaceResolution, ResolveError>) -> Result<(), MetadataError> {
    match r {
        Err(ResolveError::ErrorType(e)) => Err(e),
        _ => Ok(()),
    }
}

/// What the reference check answered.
pub open spec fn reference_part(r: Result<NamespaceResolution, ResolveError>) -> Result<(), ValidationError> {
    match r {
        Err(ResolveError::Reference(e)) => Err(e),
        _ => Ok(()),
    }
}

/// The state after the first two passes, from nothing: the anonymous
/// structs and the unions of the items, in order, and nothing else yet.
pub open spec fn collected(ns: NamespaceCtx, s: NamespaceResolution) -> bool {
    &&& recorded_structs(s.anonymous_structs@) == anon_children(Seq::empty(), ns.children@)
    &&& forall|i: int| 0 <= i < s.anonymous_structs@.len() ==> (#[trigger] s.anonymous_structs@[i]).value.span == Span::CallSite
    &&& recorded_unions(s.identified_unions@) == unions_in_children(ns.children@)
    &&& forall|i: int| 0 <= i < s.identified_unions@.len() ==> (#[trigger] s.identified_unions@[i]).span == Span::CallSite
    &&& s.union_structs@.len() == 0
    &&& s.resolved_aliases.wf() && s.resolved_aliases.entries().len() == 0
    &&& s.versions.wf() && s.versions.entries().len() == 0
    &&& s.errors.wf() && s.errors.entries().len() == 0
}

/// One run of the passes in order, through the intermediate states `s`
/// (after the first two passes), the aliases as resolved, the maps `ors`
/// the `&|` pass went through, `merged` (the structs the unions became),
/// and the maps of versions and error types each pass made, ending in `r`.
pub open spec fn resolve_run(
    ns: NamespaceCtx,
    registry: TypeRegistry,
    s: NamespaceResolution,
    aliases: crate::ordmap::StrMap<crate::defs::Spanned<crate::ast::Type>>,
    ors: Seq<crate::ordmap::StrMap<crate::defs::Spanned<crate::ast::Type>>>,
    merged: NamespaceResolution,
    versions: crate::ordmap::StrMap<crate::defs::Spanned<u32>>,
    errors: crate::ordmap::StrMap<crate::defs::Spanned<String>>,
    r: Result<NamespaceResolution, ResolveError>,
) -> bool {
    &&& collected(ns, s)
    &&& aliases_outcome(ns, s.resolved_aliases, aliases, alias_part(r))
    &&& alias_part(r) is Ok ==> {
        &&& or_trace(ns, ors, pass_issue(union_or_part(r)))
        &&& ors[0] == aliases
    }
    &&& (alias_part(r) is Ok && union_or_part(r) is Ok) ==> union_result(union_part(r)) == records_issue(s.identified_unions@, ns, ors.last())
    &&& (alias_part(r) is Ok && union_or_part(r) is Ok && union_part(r) is Ok) ==> {
        &&& merged.union_structs@.len() == s.identified_unions@.len()
        &&& forall|i: int| 0 <= i < s.identified_unions@.len() ==> {
            let d = #[trigger] merged.union_structs@[i];
            &&& d.value.span == Span::CallSite
            &&& is_merge_of(d.source@, d.value.value, s.identified_unions@[i].value, ns)
        }
        &&& versions_outcome(ns, s.versions, versions, version_part(r))
    }
    &&& (alias_part(r) is Ok && union_or_part(r) is Ok && union_part(r) is Ok && version_part(r) is Ok) ==> errors_outcome(ns, s.errors, errors, error_part(r))
    &&& (alias_part(r) is Ok && union_or_part(r) is Ok && union_part(r) is Ok && version_part(r) is Ok && error_part(r) is Ok) ==> {
        &&& result_issue(reference_part(r)) == children_issue(ns.children@, registry.keys(), ns.ctx@, imports_view(ns.imports@))
        &&& reference_part(r) is Ok ==> (r matches Ok(res) && {
            &&& res.anonymous_structs == s.anonymous_structs
            &&& res.identified_unions == s.identified_unions
            &&& res.union_structs == merged.union_structs
            &&& res.resolved_aliases == ors.last()
            &&& res.versions == versions
            &&& res.errors == errors
        })
    }
}

/// Resolves the namespace: records its anonymous structs and its unions,
/// resolves its aliases, merges the structs its aliases compose with `&|`,
/// checks its unions and merges each into a struct,
/// records the version and the error type of each item, and checks every
/// reference against `registry`, in that order. The first pass that
/// refuses the namespace gives the error.
pub fn resolve(ns: &NamespaceCtx, registry: &TypeRegistry) -> (r: Result<NamespaceResolution, ResolveError>)
    ensures
        exists|s: NamespaceResolution, a, o, m: NamespaceResolution, v, e| #[trigger] resolve_run(*ns, *registry, s, a, o, m, v, e, r),
{
    let mut res = NamespaceResolution::new();
    anonymous_structs(ns, &mut res);
    identify_unions(ns, &mut res);
    let ghost s = res;
    assert(collected(*ns, s)) by {
        assert(recorded_structs(Seq::empty()) =~= Seq::empty());
        assert(recorded_unions(Seq::empty()) =~= Seq::empty());
        assert(recorded_structs(s.anonymous_structs@) =~= anon_children(Seq::empty(), ns.children@));
        assert(recorded_unions(s.identified_unions@) =~= unions_in_children(ns.children@));
    }

    let ra = resolve_type_aliases(ns, &mut res.resolved_aliases);
    let ghost a = res.resolved_aliases;
    if let Err(err) = ra {
        let r = Err(ResolveError::Alias(err));
        assert(resolve_run(*ns, *registry, s, a, seq![a], s, s.versions, s.errors, r));
        return r;
    }

    let ro = resolve_union_or(ns, &mut res.resolved_aliases);
    let ghost o = choose|ms: Seq<StrMap<Spanned<Type>>>| {
        &&& #[trigger] or_trace(*ns, ms, pass_issue(ro))
        &&& ms[0] == a
        &&& ms.last() == res.resolved_aliases
    };
    if let Err(err) = ro {
        let r = Err(ResolveError::UnionOr(err));
        assert(resolve_run(*ns, *registry, s, a, o, s, s.versions, s.errors, r));
        return r;
    }

    let ru = validate_unions(ns, &res);
    if let Err(err) = ru {
        let r = Err(ResolveError::Union(err));
        assert(resolve_run(*ns, *registry, s, a, o, s, s.versions, s.errors, r));
        return r;
    }

    let ghost before_merge = res;
    let _ = merge_unions(ns, &mut res);
    let ghost m = res;
    assert forall|i: int| 0 <= i < s.identified_unions@.len() implies {
        let d = #[trigger] m.union_structs@[i];
        &&& d.value.span == Span::CallSite
        &&& is_merge_of(d.source@, d.value.value, s.identified_unions@[i].value, *ns)
    } by {
        let d = m.union_structs@[before_merge.union_structs@.len() + i];
        assert(d == m.union_structs@[i]);
    }

    let rv = resolve_versions(ns, &mut res.versions);
    let ghost v = res.versions;
    if let Err(err) = rv {
        let r = Err(ResolveError::Version(err));
        assert(resolve_run(*ns, *registry, s, a, o, m, v, s.errors, r));
        return r;
    }

    let re = resolve_error_types(ns, &mut res.errors);
    let ghost e = res.errors;
    if let Err(err) = re {
        let r = Err(ResolveError::ErrorType(err));
        assert(resolve_run(*ns, *registry, s, a, o, m, v, e, r));
        return r;
    }

    let rr = validate_all_references(ns, registry);
    if let Err(err) = rr {
        let r = Err(ResolveError::Reference(err));
        assert(resolve_run(*ns, *registry, s, a, o, m, v, e, r));
        return r;
    }
    let r = Ok(res);
    assert(resolve_run(*ns, *registry, s, a, o, m, v, e, r));
    r
}

} // verus!
