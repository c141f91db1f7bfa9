//! Registering the types of a schema: each item of a namespace by its
//! kind, and the namespaces nested one level below a namespace.
use vstd::prelude::*;
use std::sync::Arc;
use crate::defs::Span;
use crate::common::{Definition, FromNamedSource, NamespaceChild};
use crate::paths::NamedItemContext;
use crate::type_registry::{RegistryError, TypeRegistry, entry_keys, item_key, item_text, registered_view};

verus! {

/// The definition an item is registered as, with the span of its
/// definition: `None` for an operation or a nested namespace, which are
/// not types.
pub open spec fn registers_as(c: NamespaceChild, d: Definition) -> bool {
    match (c, d) {
        (NamespaceChild::Struct(x), Definition::Struct(a)) => *a == x,
        (NamespaceChild::OneOf(x), Definition::OneOf(a)) => *a == x,
        (NamespaceChild::Error(x), Definition::Error(a)) => *a == x,
        (NamespaceChild::Type(x), Definition::TypeAlias(a)) => *a == x,
        (NamespaceChild::Enum(x), Definition::Enum(a)) => *a == x,
        _ => false,
    }
}

/// Whether an item is a type to register.
pub open spec fn is_type(c: NamespaceChild) -> bool {
    !(c is Operation || c is Namespace)
}

/// The span of an item's definition.
pub open spec fn definition_span(c: NamespaceChild) -> Span {
    match c {
        NamespaceChild::Struct(x) => x.def.span,
        NamespaceChild::OneOf(x) => x.def.span,
        NamespaceChild::Error(x) => x.def.span,
        NamespaceChild::Type(x) => x.def.span,
        NamespaceChild::Enum(x) => x.def.span,
        NamespaceChild::Operation(x) => x.def.span,
        NamespaceChild::Namespace(_) => Span::CallSite,
    }
}

/// Registers the item `child` under `key`: a struct, oneof, error, alias
/// or enum as its definition, at the span of its definition, from its
/// file; an operation or a nested namespace is not a type and is left
/// out. A path registered already is refused.
pub fn register_type(registry: &mut TypeRegistry, key: &NamedItemContext, child: FromNamedSource<NamespaceChild>) -> (r: Result<(), RegistryError>)
    requires
        old(registry).wf(),
    ensures
        final(registry).wf(),
        !is_type(child.value) ==> r is Ok && final(registry).entries() == old(registry).entries(),
        is_type(child.value) && old(registry).keys().contains(key@) ==> {
            &&& r matches Err(RegistryError::DuplicateType { name: n, span: s })
            &&& n@ == item_text(key@)
            &&& s == definition_span(child.value).spec_raw()
            &&& final(registry).entries() == old(registry).entries()
        },
        is_type(child.value) && !old(registry).keys().contains(key@) ==> {
            &&& r is Ok
            &&& exists|p: int| #![trigger final(registry).entries()[p]] 0 <= p <= old(registry).entries().len()
                && entry_keys(final(registry).entries()) == entry_keys(old(registry).entries()).insert(p, key@)
                && final(registry).entries().remove(p) == old(registry).entries()
                && registered_view(final(registry).entries()[p].1).0 == child.source@
                && registered_view(final(registry).entries()[p].1).1 == Span::Known(definition_span(child.value).spec_raw())
                && registers_as(child.value, registered_view(final(registry).entries()[p].1).2)
                && registered_view(final(registry).entries()[p].1).3 == key@
        },
{
    let ghost c = child.value;
    let FromNamedSource { source, value } = child;
    let (def, span) = match value {
        NamespaceChild::Struct(x) => {
            let sp = x.def.span;
            (Definition::Struct(Arc::new(x)), sp)
        },
        NamespaceChild::OneOf(x) => {
            let sp = x.def.span;
            (Definition::OneOf(Arc::new(x)), sp)
        },
        NamespaceChild::Error(x) => {
            let sp = x.def.span;
            (Definition::Error(Arc::new(x)), sp)
        },
        NamespaceChild::Type(x) => {
            let sp = x.def.span;
            (Definition::TypeAlias(Arc::new(x)), sp)
        },
        NamespaceChild::Enum(x) => {
            let sp = x.def.span;
            (Definition::Enum(Arc::new(x)), sp)
        },
        NamespaceChild::Operation(_) => return Ok(()),
        NamespaceChild::Namespace(_) => return Ok(()),
    };
    assert(registers_as(c, def));
    assert(item_key(key.context@, key.name.value.0@) == key@);
    registry.register(&key.context, &key.name, def, span, source)
}

/// How many times `::` occurs in `s`, read left to right without overlap.
pub open spec fn separators(s: Seq<char>) -> nat
    decreases s.len(),
{
    if s.len() >= 2 && s[0] == ':' && s[1] == ':' {
        1 + separators(s.subrange(2, s.len() as int))
    } else if s.len() > 0 {
        separators(s.subrange(1, s.len() as int))
    } else {
        0
    }
}

/// Whether `key` names a namespace one level below `ns_name`, which sits
/// `depth` levels deep: it starts with `ns_name::` and has `depth + 1`
/// separators.
pub open spec fn is_child_namespace(key: Seq<char>, ns_name: Seq<char>, depth: nat) -> bool {
    &&& (ns_name + "::"@).is_prefix_of(key)
    &&& separators(key) == depth + 1
}

/// The names among `all`, in order, of the namespaces one level below.
pub open spec fn child_names(all: Seq<String>, ns_name: Seq<char>, depth: nat) -> Seq<Seq<char>>
    decreases all.len(),
{
    if all.len() == 0 {
        Seq::empty()
    } else {
        let rest = child_names(all.drop_last(), ns_name, depth);
        if is_child_namespace(all.last()@, ns_name, depth) { rest.push(all.last()@) } else { rest }
    }
}

/// Counts the separators of `s`.
fn count_separators(s: &Vec<char>) -> (r: usize)
    ensures
        r == separators(s@),
{
    let mut i: usize = 0;
    let mut n: usize = 0;
    assert(s@.subrange(0, s@.len() as int) =~= s@);
    while i < s.len()
        invariant
            i <= s@.len(),
            n <= i,
            n + separators(s@.subrange(i as int, s@.len() as int)) == separators(s@),
        decreases s@.len() - i,
    {
        let ghost rest = s@.subrange(i as int, s@.len() as int);
        if i + 1 < s.len() && s[i] == ':' && s[i + 1] == ':' {
            assert(rest.subrange(2, rest.len() as int) =~= s@.subrange(i + 2, s@.len() as int));
            n += 1;
            i += 2;
        } else {
            assert(rest.subrange(1, rest.len() as int) =~= s@.subrange(i + 1, s@.len() as int));
            i += 1;
        }
    }
    assert(s@.subrange(i as int, s@.len() as int) =~= Seq::<char>::empty());
    n
}

/// Whether `s` starts with `prefix`.
fn starts_with(s: &Vec<char>, prefix: &Vec<char>) -> (r: bool)
    ensures
        r == prefix@.is_prefix_of(s@),
{
    if prefix.len() > s.len() {
        return false;
    }
    let mut i: usize = 0;
    while i < prefix.len()
        invariant
            prefix@.len() <= s@.len(),
            i <= prefix@.len(),
            forall|j: int| 0 <= j < i ==> prefix@[j] == s@[j],
        decreases prefix@.len() - i,
    {
        if prefix[i] != s[i] {
            return false;
        }
        i += 1;
    }
    assert(prefix@ =~= s@.subrange(0, prefix@.len() as int));
    true
}

/// The namespaces among `all`, in order, one level below `ns_name`, which
/// sits `depth` levels deep.
pub fn child_namespaces(ns_name: &String, depth: usize, all: &Vec<String>) -> (r: Vec<String>)
    requires
        depth < usize::MAX,
    ensures
        r@.map_values(|s: String| s@) == child_names(all@, ns_name@, depth as nat),
{
    let mut prefix = crate::text::chars_of(ns_name.as_str());
    prefix.push(':');
    prefix.push(':');
    assert(prefix@ =~= ns_name@ + "::"@) by {
        reveal_strlit("::");
    }
    let mut out: Vec<String> = Vec::new();
    let mut k: usize = 0;
    while k < all.len()
        invariant
            k <= all@.len(),
            depth < usize::MAX,
            prefix@ == ns_name@ + "::"@,
            out@.map_values(|s: String| s@) == child_names(all@.subrange(0, k as int), ns_name@, depth as nat),
        decreases all@.len() - k,
    {
        proof {
            assert(all@.subrange(0, k + 1).drop_last() =~= all@.subrange(0, k as int));
        }
        let key = crate::text::chars_of(all[k].as_str());
        if starts_with(&key, &prefix) && count_separators(&key) == depth + 1 {
            let ghost before = out@;
            out.push(all[k].clone());
            assert(out@.map_values(|s: String| s@) =~= before.map_values(|s: String| s@).push(all@[k as int]@));
        }
        k += 1;
    }
    assert(all@.subrange(0, all@.len() as int) =~= all@);
    out
}

} // verus!
