//! Declaring a namespace: its items of the root package, as the registry
//! holds them, and its nested namespaces, by name.
use vstd::prelude::*;
use crate::ast::CommentStream;
use crate::common::{FromNamedSource, NamespaceChild, NamespaceCtx};
use crate::convert::{ConvertError, resolve_ref, resolve_path_or_ident};
use crate::ast::path_or_ident_view;
use crate::convert_item::{convert_type, declared_as, def_failure, def_refs, item_comment_texts, item_meta, variant_comments};
use crate::declare::{DeclComment, DeclNamespace, TypeDefinition, TypeRegistryDeclaration};
use crate::names::{snake_case, to_snake_case};
use crate::ordmap::{StrMap, key_index, keys_of, sorted_keys};
use crate::pathord::PathV;
use crate::paths::NamedItemContext;
use crate::refset::RefSet;
use crate::text::{append_string, str_eq};
use crate::toks::strings_view;
use crate::type_registry::{TypeRegistry, registered_view};

verus! {

/// The children of a namespace.
pub type Children = Seq<(NamedItemContext, FromNamedSource<NamespaceChild>)>;

/// The version and error maps of `ns` and of every namespace nested in it
/// are well formed.
pub open spec fn resolutions_wf(ns: NamespaceCtx) -> bool
    decreases ns, 1int,
{
    &&& ns.resolved_versions.wf()
    &&& ns.resolved_errors.wf()
    &&& nested_resolutions_wf(ns.children@)
}

pub open spec fn nested_resolutions_wf(cs: Children) -> bool
    decreases cs, 0int,
{
    forall|j: int| 0 <= j < cs.len() ==> ((#[trigger] cs[j]).1.value matches NamespaceChild::Namespace(b) ==> resolutions_wf(*b))
}

/// The message for an item that was never registered.
pub open spec fn unregistered_message(name: Seq<char>) -> Seq<char> {
    "Type '"@ + name + "' not found in registry during declaration conversion. This is a compiler error."@
}

/// The comment texts of the files of a namespace, in order.
pub open spec fn file_comment_texts(cs: Seq<FromNamedSource<CommentStream>>) -> Seq<Seq<char>> {
    item_comment_texts(cs.map_values(|c: FromNamedSource<CommentStream>| c.value))
}

/// Why declaring `ns` fails, if it does: the first of its items of the
/// package `snake_case(root)` that cannot be declared.
pub open spec fn namespace_failure(ns: NamespaceCtx, reg: TypeRegistry, root: Seq<char>) -> Option<Seq<char>>
    decreases ns, 1int,
{
    children_failure(ns.children@, ns, reg, snake_case(root))
}

pub open spec fn children_failure(cs: Children, ns: NamespaceCtx, reg: TypeRegistry, pkg: Seq<char>) -> Option<Seq<char>>
    decreases cs, 0int,
{
    if cs.len() == 0 {
        None
    } else {
        match children_failure(cs.subrange(0, cs.len() - 1), ns, reg, pkg) {
            Some(m) => Some(m),
            None => if cs[cs.len() - 1].0@.context.package != pkg {
                None
            } else {
                match cs[cs.len() - 1].1.value {
                    NamespaceChild::Namespace(b) => namespace_failure(*b, reg, pkg),
                    _ => match reg.lookup(cs[cs.len() - 1].0@) {
                        None => Some(unregistered_message(cs[cs.len() - 1].0.name.value.0@)),
                        Some(e) => def_failure(e.2, cs[cs.len() - 1].0.name.value.0@, ns.resolved_errors),
                    },
                }
            },
        }
    }
}

/// The items of other packages that declaring `ns` records.
pub open spec fn namespace_refs_added(ns: NamespaceCtx, reg: TypeRegistry, root: Seq<char>) -> Set<PathV>
    decreases ns, 1int,
{
    children_refs(ns.children@, ns, reg, snake_case(root))
}

pub open spec fn children_refs(cs: Children, ns: NamespaceCtx, reg: TypeRegistry, pkg: Seq<char>) -> Set<PathV>
    decreases cs, 0int,
{
    if cs.len() == 0 {
        Set::empty()
    } else {
        let before = children_refs(cs.subrange(0, cs.len() - 1), ns, reg, pkg);
        if cs[cs.len() - 1].0@.context.package != pkg {
            before
        } else {
            match cs[cs.len() - 1].1.value {
                NamespaceChild::Namespace(b) => before.union(namespace_refs_added(*b, reg, pkg)),
                _ => match reg.lookup(cs[cs.len() - 1].0@) {
                    None => before,
                    Some(e) => before.union(def_refs(e.2, ns.ctx@, ns.imports@)),
                },
            }
        }
    }
}

/// The last of `nested` named `k`.
pub open spec fn last_named(nested: Seq<DeclNamespace>, k: Seq<char>) -> Option<DeclNamespace>
    decreases nested.len(),
{
    if nested.len() == 0 {
        None
    } else if nested.last().name@ == k {
        Some(nested.last())
    } else {
        last_named(nested.drop_last(), k)
    }
}

/// `entries` holds, in name order, the last of `nested` of each name.
pub open spec fn nested_by_name(entries: Seq<(String, Box<DeclNamespace>)>, nested: Seq<DeclNamespace>) -> bool {
    &&& sorted_keys(keys_of(entries))
    &&& forall|k: Seq<char>| match #[trigger] key_index(entries, k) {
        Some(i) => last_named(nested, k) == Some(*entries[i].1),
        None => last_named(nested, k) is None,
    }
}

/// `d` declares `ns`, with its items of the package `snake_case(root)`
/// and the namespaces nested in it.
pub open spec fn namespace_declared(ns: NamespaceCtx, reg: TypeRegistry, root: Seq<char>, d: DeclNamespace) -> bool
    decreases ns, 1int,
{
    &&& d.name@ == ns.namespace.value.value.0@
    &&& d.version == match ns.version {
        Some(v) => Some(v.value.value.value.value as u32),
        None => None,
    }
    &&& match (d.error, ns.error) {
        (Some(x), Some(e)) => x@ == resolve_ref(path_or_ident_view(e.value.value.value.value), ns.ctx@, ns.imports@),
        (None, None) => true,
        _ => false,
    }
    &&& strings_view(d.comments.comments@) == file_comment_texts(ns.comments@)
    &&& exists|nested: Seq<DeclNamespace>| children_declared(ns.children@, ns, reg, snake_case(root), d.types@, nested)
        && #[trigger] nested_by_name(d.namespaces@, nested)
}

/// Declaring the children `cs` of `ns` gives the items `types` and the
/// nested namespaces `nested`, in order.
pub open spec fn children_declared(
    cs: Children,
    ns: NamespaceCtx,
    reg: TypeRegistry,
    pkg: Seq<char>,
    types: Seq<TypeDefinition>,
    nested: Seq<DeclNamespace>,
) -> bool
    decreases cs, 0int,
{
    if cs.len() == 0 {
        types.len() == 0 && nested.len() == 0
    } else if cs[cs.len() - 1].0@.context.package != pkg {
        children_declared(cs.subrange(0, cs.len() - 1), ns, reg, pkg, types, nested)
    } else {
        match cs[cs.len() - 1].1.value {
            NamespaceChild::Namespace(b) => {
                &&& nested.len() > 0
                &&& namespace_declared(*b, reg, pkg, nested[nested.len() - 1])
                &&& children_declared(cs.subrange(0, cs.len() - 1), ns, reg, pkg, types, nested.subrange(0, nested.len() - 1))
            },
            _ => {
                &&& types.len() > 0
                &&& reg.lookup(cs[cs.len() - 1].0@) matches Some(e) && declared_as(
                    e.2,
                    cs[cs.len() - 1].0.name.value.0@,
                    item_meta(ns.resolved_versions, cs[cs.len() - 1].0.name.value.0@),
                    ns.ctx@,
                    ns.imports@,
                    ns.resolved_errors,
                    types[types.len() - 1],
                )
                &&& children_declared(cs.subrange(0, cs.len() - 1), ns, reg, pkg, types.subrange(0, types.len() - 1), nested)
            },
        }
    }
}

proof fn lemma_children_failure_stops(cs: Children, ns: NamespaceCtx, reg: TypeRegistry, pkg: Seq<char>, n: int)
    requires
        0 <= n <= cs.len(),
        children_failure(cs.subrange(0, n), ns, reg, pkg) is Some,
    ensures
        children_failure(cs, ns, reg, pkg) == children_failure(cs.subrange(0, n), ns, reg, pkg),
    decreases cs.len() - n,
{
    if n < cs.len() {
        assert(cs.subrange(0, n + 1).subrange(0, n) =~= cs.subrange(0, n));
        lemma_children_failure_stops(cs, ns, reg, pkg, n + 1);
    } else {
        assert(cs.subrange(0, n) =~= cs);
    }
}

proof fn lemma_children_refs_grow(cs: Children, ns: NamespaceCtx, reg: TypeRegistry, pkg: Seq<char>, n: int)
    requires
        0 <= n <= cs.len(),
    ensures
        children_refs(cs.subrange(0, n), ns, reg, pkg).subset_of(children_refs(cs, ns, reg, pkg)),
    decreases cs.len() - n,
{
    if n < cs.len() {
        assert(cs.subrange(0, n + 1).subrange(0, n) =~= cs.subrange(0, n));
        lemma_children_refs_grow(cs, ns, reg, pkg, n + 1);
    } else {
        assert(cs.subrange(0, n) =~= cs);
    }
}

/// The comments of the files of a namespace, in order.
fn file_comments(cs: &Vec<FromNamedSource<CommentStream>>) -> (r: DeclComment)
    ensures
        strings_view(r.comments@) == file_comment_texts(cs@),
{
    let ghost streams = cs@.map_values(|c: FromNamedSource<CommentStream>| c.value);
    let mut out = DeclComment::new();
    let mut k: usize = 0;
    while k < cs.len()
        invariant
            k <= cs@.len(),
            streams == cs@.map_values(|c: FromNamedSource<CommentStream>| c.value),
            strings_view(out.comments@) == item_comment_texts(streams.subrange(0, k as int)),
        decreases cs@.len() - k,
    {
        let c = variant_comments(&cs[k].value);
        let ghost before = out.comments@;
        out.merge(c);
        proof {
            assert(streams.subrange(0, k + 1).drop_last() =~= streams.subrange(0, k as int));
            assert(streams.subrange(0, k + 1).last() == cs@[k as int].value);
            assert(strings_view(out.comments@) =~= strings_view(before) + strings_view(c.comments@));
        }
        k += 1;
    }
    assert(streams.subrange(0, cs@.len() as int) =~= streams);
    out
}

/// The message for the item `named`, never registered.
fn unregistered(named: &NamedItemContext) -> (r: ConvertError)
    ensures
        r.message@ == unregistered_message(named.name.value.0@),
{
    let mut message = String::from_str("Type '");
    append_string(&mut message, &named.name.value.0);
    let tail = String::from_str("' not found in registry during declaration conversion. This is a compiler error.");
    append_string(&mut message, &tail);
    proof {
        reveal_strlit("Type '");
        reveal_strlit("' not found in registry during declaration conversion. This is a compiler error.");
    }
    ConvertError { message }
}

/// Declares the namespace `ns`: its name, version, error type and file
/// comments; each of its items of the package `root` in snake_case,
/// in order, as the registry holds it; and each namespace nested in it,
/// declared in turn, by name. Adds to `refs` the items of other packages
/// its items refer to. Fails on the first item that cannot be declared,
/// or that the registry does not hold.
pub fn convert_namespace(
    ns: &NamespaceCtx,
    registry: &TypeRegistry,
    root_package: &String,
    refs: &mut RefSet,
) -> (r: Result<DeclNamespace, ConvertError>)
    requires
        old(refs).wf(),
        registry.wf(),
        resolutions_wf(*ns),
    ensures
        final(refs).wf(),
        match r {
            Ok(d) => {
                &&& namespace_failure(*ns, *registry, root_package@) is None
                &&& namespace_declared(*ns, *registry, root_package@, d)
                &&& final(refs).set() == old(refs).set().union(namespace_refs_added(*ns, *registry, root_package@))
            },
            Err(e) => {
                &&& namespace_failure(*ns, *registry, root_package@) == Some(e.message@)
                &&& old(refs).set().subset_of(final(refs).set())
                &&& final(refs).set().subset_of(old(refs).set().union(namespace_refs_added(*ns, *registry, root_package@)))
            },
        },
    decreases ns,
{
    let root = to_snake_case(root_package);
    let name = ns.namespace.value.value.0.clone();
    let version = match &ns.version {
        Some(v) => Some(v.version_value() as u32),
        None => None,
    };
    let error = match &ns.error {
        Some(e) => Some(resolve_path_or_ident(e.error_name(), ns)),
        None => None,
    };
    let ghost cs = ns.children@;
    let ghost s0 = refs.set();
    let mut types: Vec<TypeDefinition> = Vec::new();
    let mut nested: StrMap<Box<DeclNamespace>> = StrMap::new();
    let ghost mut nested_seq: Seq<DeclNamespace> = Seq::empty();
    let mut k: usize = 0;
    while k < ns.children.len()
        invariant
            cs == ns.children@,
            s0 == old(refs).set(),
            k <= cs.len(),
            root@ == snake_case(root_package@),
            registry.wf(),
            resolutions_wf(*ns),
            refs.wf(),
            nested.wf(),
            children_failure(cs.subrange(0, k as int), *ns, *registry, root@) is None,
            children_declared(cs.subrange(0, k as int), *ns, *registry, root@, types@, nested_seq),
            refs.set() == s0.union(children_refs(cs.subrange(0, k as int), *ns, *registry, root@)),
            forall|key: Seq<char>| match #[trigger] nested.spec_get(key) {
                Some(b) => last_named(nested_seq, key) == Some(*b),
                None => last_named(nested_seq, key) is None,
            },
        decreases cs.len() - k,
    {
        let ghost pre = cs.subrange(0, k as int);
        let ghost next = cs.subrange(0, k + 1);
        assert(next.subrange(0, k as int) =~= pre);
        assert(next[k as int] == cs[k as int]);
        let child = &ns.children[k];
        if !str_eq(&child.0.context.package, &root) {
            k += 1;
            continue;
        }
        match &child.1.value {
            NamespaceChild::Namespace(b) => {
                proof {
                    assert(nested_resolutions_wf(cs));
                    assert(cs[k as int].1.value matches NamespaceChild::Namespace(b2) && resolutions_wf(*b2));
                    assert(decreases_to!(*ns => ns.children));
                    assert(decreases_to!(ns.children => ns.children@));
                    assert(decreases_to!(ns.children@ => ns.children@[k as int]));
                }
                let ghost before = refs.set();
                let inner = convert_namespace(&**b, registry, &root, refs);
                match inner {
                    Err(e) => {
                        proof {
                            lemma_children_failure_stops(cs, *ns, *registry, root@, k + 1);
                            lemma_children_refs_grow(cs, *ns, *registry, root@, k + 1);
                            let full = children_refs(cs, *ns, *registry, root@);
                            let upto = children_refs(next, *ns, *registry, root@);
                            assert(upto == children_refs(pre, *ns, *registry, root@).union(namespace_refs_added(**b, *registry, root@)));
                            assert forall|x: PathV| refs.set().contains(x) implies s0.union(full).contains(x) by {
                                if !before.contains(x) {
                                    assert(upto.contains(x));
                                }
                            }
                            assert forall|x: PathV| s0.contains(x) implies refs.set().contains(x) by {
                                assert(before.contains(x));
                            }
                            assert(s0.subset_of(refs.set()));
                            assert(refs.set().subset_of(s0.union(full)));
                            assert(full == namespace_refs_added(*ns, *registry, root_package@));
                        }
                        return Err(e);
                    },
                    Ok(d) => {
                        let key = d.name.clone();
                        let ghost dv = d;
                        let ghost prev = nested_seq;
                        nested.insert(key, Box::new(d));
                        proof {
                            nested_seq = nested_seq.push(dv);
                            assert(nested_seq.subrange(0, nested_seq.len() - 1) =~= prev);
                            assert forall|kk: Seq<char>| match #[trigger] nested.spec_get(kk) {
                                Some(b) => last_named(nested_seq, kk) == Some(*b),
                                None => last_named(nested_seq, kk) is None,
                            } by {
                                assert(nested_seq.drop_last() =~= prev);
                            }
                        }
                    },
                }
            },
            _ => {
                match registry.get(&child.0) {
                    None => {
                        proof {
                            registry.lemma_lookup(cs[k as int].0@);
                            lemma_children_failure_stops(cs, *ns, *registry, root@, k + 1);
                            lemma_children_refs_grow(cs, *ns, *registry, root@, k as int);
                            let full = children_refs(cs, *ns, *registry, root@);
                            assert forall|x: PathV| refs.set().contains(x) implies s0.union(full).contains(x) by {
                                if !s0.contains(x) {
                                    assert(children_refs(pre, *ns, *registry, root@).contains(x));
                                }
                            }
                            assert(s0.subset_of(refs.set()));
                            assert(refs.set().subset_of(s0.union(full)));
                            assert(full == namespace_refs_added(*ns, *registry, root_package@));
                        }
                        return Err(unregistered(&child.0));
                    },
                    Some(x) => {
                        proof {
                            registry.lemma_lookup(cs[k as int].0@);
                        }
                        let ghost tprev = types@;
                        let t = convert_type(&child.0, &x.value.value.kind, ns, &ns.resolved_versions, &ns.resolved_errors, refs);
                        match t {
                            Err(e) => {
                                proof {
                                    lemma_children_failure_stops(cs, *ns, *registry, root@, k + 1);
                                    lemma_children_refs_grow(cs, *ns, *registry, root@, k + 1);
                                }
                                return Err(e);
                            },
                            Ok(t) => {
                                types.push(t);
                                proof {
                                    assert(types@.subrange(0, types@.len() - 1) =~= tprev);
                                }
                            },
                        }
                    },
                }
            },
        }
        k += 1;
    }
    assert(cs.subrange(0, cs.len() as int) =~= cs);
    let comments = file_comments(&ns.comments);
    proof {
        nested.lemma_wf();
        assert forall|kk: Seq<char>| match #[trigger] key_index(nested.entries(), kk) {
            Some(i) => last_named(nested_seq, kk) == Some(*nested.entries()[i].1),
            None => last_named(nested_seq, kk) is None,
        } by {
            let _ = nested.spec_get(kk);
        }
        assert(nested_by_name(nested.entries(), nested_seq));
    }
    let namespaces = nested.into_entries();
    let d = DeclNamespace { name, version, error, types, namespaces: namespaces, comments };
    proof {
        assert(children_declared(ns.children@, *ns, *registry, snake_case(root_package@), d.types@, nested_seq));
        assert(nested_by_name(d.namespaces@, nested_seq));
    }
    Ok(d)
}

/// Why declaring the namespaces `es` of a schema fails, if it does: the
/// failure of the first of them that cannot be declared.
pub open spec fn schema_failure(es: Seq<(String, NamespaceCtx)>, reg: TypeRegistry, package: Seq<char>) -> Option<Seq<char>>
    decreases es.len(),
{
    if es.len() == 0 {
        None
    } else {
        match schema_failure(es.drop_last(), reg, package) {
            Some(m) => Some(m),
            None => namespace_failure(es.last().1, reg, package),
        }
    }
}

/// The items of other packages that declaring the namespaces `es` records.
pub open spec fn schema_refs(es: Seq<(String, NamespaceCtx)>, reg: TypeRegistry, package: Seq<char>) -> Set<PathV>
    decreases es.len(),
{
    if es.len() == 0 {
        Set::empty()
    } else {
        schema_refs(es.drop_last(), reg, package).union(namespace_refs_added(es.last().1, reg, package))
    }
}

/// `decls` declares the namespaces `es`, one for one.
pub open spec fn declarations_of(es: Seq<(String, NamespaceCtx)>, reg: TypeRegistry, package: Seq<char>, decls: Seq<DeclNamespace>) -> bool {
    &&& decls.len() == es.len()
    &&& forall|i: int| 0 <= i < decls.len() ==> namespace_declared(es[i].1, reg, package, #[trigger] decls[i])
}

proof fn lemma_schema_failure_stops(es: Seq<(String, NamespaceCtx)>, reg: TypeRegistry, package: Seq<char>, n: int)
    requires
        0 <= n <= es.len(),
        schema_failure(es.subrange(0, n), reg, package) is Some,
    ensures
        schema_failure(es, reg, package) == schema_failure(es.subrange(0, n), reg, package),
    decreases es.len() - n,
{
    if n < es.len() {
        assert(es.subrange(0, n + 1).drop_last() =~= es.subrange(0, n));
        lemma_schema_failure_stops(es, reg, package, n + 1);
    } else {
        assert(es.subrange(0, n) =~= es);
    }
}

/// Declares the namespaces of the package `package_name`, in name order:
/// each is stored under its declared name, a later one in place of an
/// earlier of the same name, and the items of other packages they refer
/// to are recorded. Fails as the first namespace that cannot be declared.
pub fn convert_schema_to_declaration(
    package_name: &String,
    namespaces: &StrMap<NamespaceCtx>,
    registry: &TypeRegistry,
) -> (r: Result<TypeRegistryDeclaration, ConvertError>)
    requires
        registry.wf(),
        forall|i: int| 0 <= i < namespaces.entries().len() ==> resolutions_wf(#[trigger] namespaces.entries()[i].1),
    ensures
        match r {
            Ok(d) => {
                &&& schema_failure(namespaces.entries(), *registry, package_name@) is None
                &&& d.package == *package_name
                &&& d.namespaces.wf()
                &&& exists|decls: Seq<DeclNamespace>| {
                    &&& #[trigger] declarations_of(namespaces.entries(), *registry, package_name@, decls)
                    &&& forall|k: Seq<char>| #[trigger] d.namespaces.spec_get(k) == last_named(decls, k)
                }
                &&& d.external_refs.wf()
                &&& d.external_refs.set() == schema_refs(namespaces.entries(), *registry, package_name@)
            },
            Err(e) => schema_failure(namespaces.entries(), *registry, package_name@) == Some(e.message@),
        },
{
    let entries = namespaces.as_entries();
    let ghost es = namespaces.entries();
    let mut refs = RefSet::new();
    let mut declared: StrMap<DeclNamespace> = StrMap::new();
    let ghost mut decls: Seq<DeclNamespace> = Seq::empty();
    let mut k: usize = 0;
    while k < entries.len()
        invariant
            entries@ == es,
            es == namespaces.entries(),
            k <= es.len(),
            registry.wf(),
            forall|i: int| 0 <= i < es.len() ==> resolutions_wf(#[trigger] es[i].1),
            refs.wf(),
            declared.wf(),
            decls.len() == k,
            schema_failure(es.subrange(0, k as int), *registry, package_name@) is None,
            forall|i: int| 0 <= i < k ==> namespace_declared(es[i].1, *registry, package_name@, #[trigger] decls[i]),
            forall|key: Seq<char>| #[trigger] declared.spec_get(key) == last_named(decls, key),
            refs.set() == schema_refs(es.subrange(0, k as int), *registry, package_name@),
        decreases es.len() - k,
    {
        let ghost pre = es.subrange(0, k as int);
        assert(es.subrange(0, k + 1).drop_last() =~= pre);
        assert(es.subrange(0, k + 1).last() == es[k as int]);
        assert(resolutions_wf(es[k as int].1));
        match convert_namespace(&entries[k].1, registry, package_name, &mut refs) {
            Err(e) => {
                proof {
                    lemma_schema_failure_stops(es, *registry, package_name@, k + 1);
                }
                return Err(e);
            },
            Ok(d) => {
                let ghost prev = decls;
                let ghost dv = d;
                let name = d.name.clone();
                declared.insert(name, d);
                proof {
                    decls = decls.push(dv);
                    assert(decls.drop_last() =~= prev);
                    assert forall|key: Seq<char>| #[trigger] declared.spec_get(key) == last_named(decls, key) by {
                        assert(decls.last() == dv);
                    }
                }
            },
        }
        k += 1;
    }
    assert(es.subrange(0, es.len() as int) =~= es);
    let mut declaration = TypeRegistryDeclaration::new(package_name.clone());
    declaration.namespaces = declared;
    declaration.extend_refs(refs);
    proof {
        assert(declaration.external_refs.set() =~= schema_refs(es, *registry, package_name@));
        assert(declarations_of(es, *registry, package_name@, decls));
    }
    Ok(declaration)
}

} // verus!
