//! The `&|` pass over a namespace: every alias whose type composes
//! structs with `&|` is resolved to the struct that merges them, in the
//! order of the items, each merge seeing the ones before it.
use vstd::prelude::*;
use crate::defs::{Span, Spanned};
use crate::ast::{Type, types_view};
use crate::common::{FromNamedSource, NamespaceChild, NamespaceCtx};
use crate::ordmap::StrMap;
use crate::paths::NamedItemContext;
use crate::union_or::{contains_union_or, flatten_union_or, has_union_or, union_or_operands};
use crate::union_or_merge::{OrIssue, UnionOrError, is_merge_struct, merge_union_or_checked, operands_fields};

verus! {

/// Why the `&|` pass stops, as values.
pub enum OrPassIssue {
    /// An operand of an alias's `&|` that is not a struct, or names nothing.
    Operand(OrIssue),
    /// An alias whose operands lead through aliases in a circle: its name.
    Unending(Seq<char>),
}

/// Why the `&|` pass stops.
#[derive(Debug)]
pub enum UnionOrPassError {
    Operand(UnionOrError),
    Unending { alias: String },
}

impl View for UnionOrPassError {
    type V = OrPassIssue;

    open spec fn view(&self) -> OrPassIssue {
        match self {
            UnionOrPassError::Operand(e) => OrPassIssue::Operand(e@),
            UnionOrPassError::Unending { alias } => OrPassIssue::Unending(alias@),
        }
    }
}

/// An error, if any, as values.
pub open spec fn pass_issue(r: Result<(), UnionOrPassError>) -> Option<OrPassIssue> {
    match r {
        Ok(()) => None,
        Err(e) => Some(e@),
    }
}

/// The item `c` taken by the pass from the resolved aliases `before` to
/// `after`, with `issue` if it stops there. An alias whose type holds `&|`
/// is merged from its operands, left to right (`ops`, each at the call
/// site): the merged struct is stored under the alias's name, or the merge
/// is refused and nothing changes. Any other item changes nothing.
pub open spec fn or_step(
    ns: NamespaceCtx,
    c: (NamedItemContext, FromNamedSource<NamespaceChild>),
    before: StrMap<Spanned<Type>>,
    after: StrMap<Spanned<Type>>,
    issue: Option<OrPassIssue>,
) -> bool {
    match c.1.value {
        NamespaceChild::Type(d) => if has_union_or(d.def.value.ty.value@) {
            exists|ops: Seq<Spanned<Type>>| {
                &&& #[trigger] types_view(ops) == union_or_operands(d.def.value.ty.value@)
                &&& forall|i: int| 0 <= i < ops.len() ==> (#[trigger] ops[i]).span == Span::CallSite
                &&& match operands_fields(ops, ns, before) {
                    None => issue == Some(OrPassIssue::Unending(c.0.name.value.0@)) && after == before,
                    Some(Err(i)) => issue == Some(OrPassIssue::Operand(i)) && after == before,
                    Some(Ok(all)) => {
                        &&& issue is None
                        &&& after.wf()
                        &&& after.spec_get(c.0.name.value.0@) matches Some(v)
                        &&& v.span == Span::CallSite
                        &&& is_merge_struct(all, v.value)
                        &&& forall|k: Seq<char>| k != c.0.name.value.0@ ==> #[trigger] after.spec_get(k) == before.spec_get(k)
                    },
                }
            }
        } else {
            after == before && issue is None
        },
        _ => after == before && issue is None,
    }
}

/// The pass over the items of `ns`, through the maps `ms` (the first the
/// aliases as resolved before it, each next one after one more item),
/// stopping with `issue` at the item that refuses, or after the last item.
pub open spec fn or_trace(ns: NamespaceCtx, ms: Seq<StrMap<Spanned<Type>>>, issue: Option<OrPassIssue>) -> bool {
    &&& 1 <= ms.len() <= ns.children@.len() + 1
    &&& forall|i: int| 0 <= i < ms.len() ==> (#[trigger] ms[i]).wf()
    &&& issue is None ==> ms.len() == ns.children@.len() + 1
    &&& issue is Some ==> ms.len() >= 2
    &&& forall|i: int| 0 <= i < ms.len() - 1 ==>
        or_step(ns, ns.children@[i], #[trigger] ms[i], ms[i + 1], if i == ms.len() - 2 { issue } else { None })
}

/// Resolves every alias of `ns` whose type composes structs with `&|` to
/// the struct that merges them, stored in `resolved` under the alias's
/// name, item by item; the first alias whose merge is refused stops the
/// pass, with what was merged before it kept.
pub fn resolve_union_or(ns: &NamespaceCtx, resolved: &mut StrMap<Spanned<Type>>) -> (r: Result<(), UnionOrPassError>)
    requires
        old(resolved).wf(),
    ensures
        final(resolved).wf(),
        exists|ms: Seq<StrMap<Spanned<Type>>>| {
            &&& #[trigger] or_trace(*ns, ms, pass_issue(r))
            &&& ms[0] == *old(resolved)
            &&& ms.last() == *final(resolved)
        },
{
    let ghost ch = ns.children@;
    let ghost mut ms: Seq<StrMap<Spanned<Type>>> = seq![*resolved];
    let mut i: usize = 0;
    while i < ns.children.len()
        invariant
            i <= ch.len(),
            ch == ns.children@,
            resolved.wf(),
            ms.len() == i + 1,
            ms[0] == *old(resolved),
            ms.last() == *resolved,
            forall|j: int| 0 <= j < ms.len() ==> (#[trigger] ms[j]).wf(),
            forall|j: int| 0 <= j < i ==> or_step(*ns, ch[j], #[trigger] ms[j], ms[j + 1], None),
        decreases ch.len() - i,
    {
        let ghost before = *resolved;
        let c = &ns.children[i];
        let mut step: Option<UnionOrPassError> = None;
        if let NamespaceChild::Type(d) = &c.1.value {
            if contains_union_or(&d.def.value.ty.value) {
                let ops = flatten_union_or(&d.def.value.ty.value);
                let merged = merge_union_or_checked(&ops, ns, resolved);
                proof {
                    assert(types_view(ops@) == union_or_operands(d.def.value.ty.value@));
                }
                match merged {
                    None => {
                        step = Some(UnionOrPassError::Unending { alias: c.0.name.value.0.clone() });
                    },
                    Some(Err(e)) => {
                        step = Some(UnionOrPassError::Operand(e));
                    },
                    Some(Ok(t)) => {
                        let _ = resolved.insert(c.0.name.value.0.clone(), Spanned::call_site(t));
                    },
                }
            }
        }
        proof {
            assert(or_step(*ns, ch[i as int], before, *resolved, match step { Some(e) => Some(e@), None => None }));
            ms = ms.push(*resolved);
            assert(ms[i as int] == before);
        }
        if let Some(e) = step {
            let r: Result<(), UnionOrPassError> = Err(e);
            proof {
                assert(or_trace(*ns, ms, pass_issue(r)));
            }
            return r;
        }
        i += 1;
    }
    assert(or_trace(*ns, ms, None));
    Ok(())
}

} // verus!
