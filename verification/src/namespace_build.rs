//! Building a namespace from the items of its files: the namespace
//! declaration and its attributes, the imports, and the items declared in
//! it, each under a path of its own.
use vstd::prelude::*;
use crate::defs::{RawSpan, Span, Spanned};
use crate::ast::{CommentStream, ErrorMeta, ItemMeta, StructDef, TagMeta, VersionMeta};
use crate::resolution::NamespaceResolution;
use crate::ordmap::{StrMap, key_index};
use crate::common::{FromNamedSource, NamespaceChild, NamespaceCtx};
use crate::items::{AstStream, Item, NamespaceDef};
use crate::ordmap::Order;
use crate::pathord::{PathV, compare_paths, path_lt};
use crate::paths::{NamedItemContext, RefContext, RefContextV, RefOrItemContext};
use crate::toks::{IdentToken, strings_view};
use crate::text::str_eq;
use crate::ast_ops::dup_ident;

verus! {

/// Why a namespace cannot be built, as values.
pub enum NsIssue {
    /// An attribute given twice: the attribute, the file, where the second is.
    DuplicateAttribute(Seq<char>, Seq<char>, RawSpan),
    /// A file declares another namespace: the file, the namespace, the other.
    DirConflict(Seq<char>, Seq<char>, Seq<char>, RawSpan),
    /// No namespace declared: at the item that needs one, or for the file.
    NotDeclared(Option<RawSpan>),
    /// Two items of one name: the namespace, the name, the second's kind.
    IdentConflict(Seq<char>, Seq<char>, Seq<char>, RawSpan),
    /// Two nested namespaces of one name.
    Duplicate(Seq<char>, RawSpan),
}

/// Why a namespace cannot be built.
#[derive(Debug)]
pub enum NamespaceError {
    DuplicateAttribute { attribute: String, path: String, span: RawSpan },
    DirConflict { path: String, parent: String, attempted: String, span: RawSpan },
    NotDeclared { span: Option<RawSpan> },
    IdentConflict { namespace: String, name: String, kind: String, span: RawSpan },
    Duplicate { name: String, span: RawSpan },
}

impl View for NamespaceError {
    type V = NsIssue;

    open spec fn view(&self) -> NsIssue {
        match self {
            NamespaceError::DuplicateAttribute { attribute, path, span } => NsIssue::DuplicateAttribute(attribute@, path@, *span),
            NamespaceError::DirConflict { path, parent, attempted, span } => NsIssue::DirConflict(path@, parent@, attempted@, *span),
            NamespaceError::NotDeclared { span } => NsIssue::NotDeclared(*span),
            NamespaceError::IdentConflict { namespace, name, kind, span } => NsIssue::IdentConflict(namespace@, name@, kind@, *span),
            NamespaceError::Duplicate { name, span } => NsIssue::Duplicate(name@, *span),
        }
    }
}

/// An error, if any, as values.
pub open spec fn issue_of(r: Option<NamespaceError>) -> Option<NsIssue> {
    match r {
        Some(e) => Some(e@),
        None => None,
    }
}

/// What an item of a namespace being built is: an item as written, or a
/// namespace written inside a file, built in the context given from the
/// file read with the text given.
pub enum ChildSpec {
    Item(NamespaceChild),
    Nested(RefContextV, AstStream, Seq<char>),
}

/// A namespace as it is being built, with each value's file by name.
pub struct BuildState {
    pub declared: Option<(Seq<char>, Spanned<IdentToken>)>,
    pub version: Option<(Seq<char>, VersionMeta)>,
    pub error: Option<(Seq<char>, ErrorMeta)>,
    pub tag: Option<(Seq<char>, TagMeta)>,
    pub imports: Seq<(Seq<char>, RefOrItemContext)>,
    pub keys: Seq<(RefContextV, Spanned<IdentToken>)>,
    pub values: Seq<(Seq<char>, ChildSpec)>,
}

/// Nothing declared yet.
pub open spec fn empty_state() -> BuildState {
    BuildState { declared: None, version: None, error: None, tag: None, imports: Seq::empty(), keys: Seq::empty(), values: Seq::empty() }
}

/// The version, error and tagging attributes found so far.
pub type Attrs = (Option<(Seq<char>, VersionMeta)>, Option<(Seq<char>, ErrorMeta)>, Option<(Seq<char>, TagMeta)>);

/// `s` with the attributes `a`.
pub open spec fn with_attrs(s: BuildState, a: Attrs) -> BuildState {
    BuildState { declared: s.declared, version: a.0, error: a.1, tag: a.2, imports: s.imports, keys: s.keys, values: s.values }
}

/// The path of a key.
pub open spec fn key_path(k: (RefContextV, Spanned<IdentToken>)) -> PathV {
    (k.0.package, k.0.namespace, k.1.value.0@)
}

/// The path of the item `name` in the namespace `ctx`.
pub open spec fn item_path(ctx: RefContextV, name: Spanned<IdentToken>) -> PathV {
    (ctx.package, ctx.namespace, name.value.0@)
}

/// The first key with the path `p`.
pub open spec fn find_key(keys: Seq<(RefContextV, Spanned<IdentToken>)>, p: PathV) -> Option<int>
    decreases keys.len(),
{
    if keys.len() == 0 {
        None
    } else {
        match find_key(keys.drop_last(), p) {
            Some(j) => Some(j),
            None => if key_path(keys.last()) == p { Some(keys.len() - 1) } else { None },
        }
    }
}

/// How many keys have a path before `p`: where a key with the path `p`
/// goes among keys kept in the order of their paths.
pub open spec fn insert_at(keys: Seq<(RefContextV, Spanned<IdentToken>)>, p: PathV) -> int
    decreases keys.len(),
{
    if keys.len() == 0 {
        0
    } else {
        insert_at(keys.drop_last(), p) + if path_lt(key_path(keys.last()), p) { 1int } else { 0int }
    }
}

/// `s` with the item `k` of value `v` added in the order of paths.
pub open spec fn with_child(s: BuildState, k: (RefContextV, Spanned<IdentToken>), v: (Seq<char>, ChildSpec)) -> BuildState {
    let at = insert_at(s.keys, key_path(k));
    BuildState { declared: s.declared, version: s.version, error: s.error, tag: s.tag, imports: s.imports, keys: s.keys.insert(at, k), values: s.values.insert(at, v) }
}

/// The attributes of the metadata lines `ms` of the file `path`, in order,
/// added to `a`: a second version, error type or tagging is refused.
pub open spec fn meta_fold(a: Attrs, ms: Seq<Spanned<ItemMeta>>, path: Seq<char>) -> (Attrs, Option<NsIssue>)
    decreases ms.len(),
{
    if ms.len() == 0 {
        (a, None)
    } else {
        let prev = meta_fold(a, ms.drop_last(), path);
        if prev.1 is Some {
            prev
        } else {
            match ms.last().value {
                ItemMeta::Version(vm) => if prev.0.0 is Some {
                    (prev.0, Some(NsIssue::DuplicateAttribute("version"@, path, vm.span.spec_raw())))
                } else {
                    ((Some((path, vm)), prev.0.1, prev.0.2), None)
                },
                ItemMeta::Error(em) => if prev.0.1 is Some {
                    (prev.0, Some(NsIssue::DuplicateAttribute("error"@, path, em.span.spec_raw())))
                } else {
                    ((prev.0.0, Some((path, em)), prev.0.2), None)
                },
                ItemMeta::Tag(tm) => if prev.0.2 is Some {
                    (prev.0, Some(NsIssue::DuplicateAttribute("tag"@, path, tm.span.spec_raw())))
                } else {
                    ((prev.0.0, prev.0.1, Some((path, tm))), None)
                },
            }
        }
    }
}

/// A namespace declaration. A first file records the declaration's
/// attributes, then refuses another name than the one declared before; a
/// further file refuses another name first.
pub open spec fn namespace_step(s: BuildState, d: NamespaceDef, path: Seq<char>, merging: bool) -> (BuildState, Option<NsIssue>) {
    let conflict = s.declared matches Some(x) && x.1.value.0@ != d.name.value.0@;
    let issue = NsIssue::DirConflict(path, s.declared.unwrap().1.value.0@, d.name.value.0@, d.name.span.spec_raw());
    let m = meta_fold((s.version, s.error, s.tag), d.meta@, path);
    if merging {
        if conflict { (s, Some(issue)) } else { (with_attrs(s, m.0), m.1) }
    } else if m.1 is Some {
        (with_attrs(s, m.0), m.1)
    } else if conflict {
        (with_attrs(s, m.0), Some(issue))
    } else if s.declared is None {
        let t = with_attrs(s, m.0);
        (BuildState { declared: Some((path, d.name)), version: t.version, error: t.error, tag: t.tag, imports: t.imports, keys: t.keys, values: t.values }, None)
    } else {
        (with_attrs(s, m.0), None)
    }
}

/// An item declared in the namespace `ctx`: refused before a namespace is
/// declared; an item of a name already taken replaces it and is refused.
pub open spec fn typed_step(
    ctx: RefContextV,
    s: BuildState,
    name: Spanned<IdentToken>,
    node: Span,
    child: NamespaceChild,
    kind: Seq<char>,
    path: Seq<char>,
) -> (BuildState, Option<NsIssue>) {
    match s.declared {
        None => (s, Some(NsIssue::NotDeclared(Some(node.spec_raw())))),
        Some(d) => match find_key(s.keys, item_path(ctx, name)) {
            Some(j) => (
                BuildState { declared: s.declared, version: s.version, error: s.error, tag: s.tag, imports: s.imports, keys: s.keys, values: s.values.update(j, (path, ChildSpec::Item(child))) },
                Some(NsIssue::IdentConflict(d.1.value.0@, name.value.0@, kind, name.span.spec_raw())),
            ),
            None => (with_child(s, (ctx, name), (path, ChildSpec::Item(child))), None),
        },
    }
}

/// The context of the namespace `name` nested in `ctx`.
pub open spec fn entered(ctx: RefContextV, name: Seq<char>) -> RefContextV {
    RefContextV { package: ctx.package, namespace: ctx.namespace.push(name) }
}

/// The items `nodes` of the file `path` (of the text `text`), in order, added to `s` in the
/// namespace `ctx`; the first refused item stops the walk, with what was
/// built up to it.
pub open spec fn items_fold(ctx: RefContextV, s: BuildState, nodes: Seq<Spanned<Item>>, path: Seq<char>, text: Seq<char>, merging: bool) -> (BuildState, Option<NsIssue>)
    decreases nodes,
{
    if nodes.len() == 0 {
        (s, None)
    } else {
        let prev = items_fold(ctx, s, nodes.drop_last(), path, text, merging);
        if prev.1 is Some {
            prev
        } else {
            let t = prev.0;
            match nodes.last().value {
                Item::Namespace(d) => namespace_step(t, d, path, merging),
                Item::Use(u) => (
                    BuildState {
                        declared: t.declared, version: t.version, error: t.error, tag: t.tag,
                        imports: t.imports + u.paths@.map_values(|p: RefOrItemContext| (path, p)),
                        keys: t.keys, values: t.values,
                    },
                    None,
                ),
                Item::SpannedNamespace(inner) => {
                    let nctx = entered(ctx, inner.name.value.0@);
                    let m = meta_fold((None, None, None), inner.ast.module_meta@, path);
                    if m.1 is Some {
                        (t, m.1)
                    } else {
                        let n = items_fold(nctx, with_attrs(empty_state(), m.0), inner.ast.nodes@, path, text, false);
                        if n.1 is Some {
                            (t, n.1)
                        } else if n.0.declared is None {
                            (t, Some(NsIssue::NotDeclared(None)))
                        } else if find_key(t.keys, item_path(nctx, inner.name)) is Some {
                            (t, Some(NsIssue::Duplicate(inner.name.value.0@, inner.name.span.spec_raw())))
                        } else {
                            (with_child(t, (nctx, inner.name), (path, ChildSpec::Nested(nctx, inner.ast, text))), None)
                        }
                    }
                },
                Item::OneOf(d) => typed_step(ctx, t, d.def.value.name, d.def.span, NamespaceChild::OneOf(d), "oneof"@, path),
                Item::Enum(d) => typed_step(ctx, t, d.def.value.name, d.def.span, NamespaceChild::Enum(d), "enum"@, path),
                Item::Struct(d) => typed_step(ctx, t, d.def.value.name, d.def.span, NamespaceChild::Struct(d), "struct"@, path),
                Item::Type(d) => typed_step(ctx, t, d.def.value.name, d.def.span, NamespaceChild::Type(d), "type"@, path),
                Item::Error(d) => typed_step(ctx, t, d.def.value.name, d.def.span, NamespaceChild::Error(d), "error"@, path),
                Item::Operation(d) => typed_step(ctx, t, d.def.value.name, d.def.span, NamespaceChild::Operation(d), "operation"@, path),
            }
        }
    }
}

/// A file read as a namespace of its own: its metadata lines, then its
/// items; one that declares no namespace is refused.
pub open spec fn stream_outcome(ctx: RefContextV, ast: AstStream, path: Seq<char>, text: Seq<char>) -> (BuildState, Option<NsIssue>) {
    let m = meta_fold((None, None, None), ast.module_meta@, path);
    if m.1 is Some {
        (with_attrs(empty_state(), m.0), m.1)
    } else {
        let n = items_fold(ctx, with_attrs(empty_state(), m.0), ast.nodes@, path, text, false);
        if n.1 is Some {
            n
        } else if n.0.declared is None {
            (n.0, Some(NsIssue::NotDeclared(None)))
        } else {
            n
        }
    }
}

/// A further file added to a namespace: its metadata lines, then its
/// items.
pub open spec fn merge_outcome(ctx: RefContextV, s: BuildState, ast: AstStream, path: Seq<char>, text: Seq<char>) -> (BuildState, Option<NsIssue>) {
    let m = meta_fold((s.version, s.error, s.tag), ast.module_meta@, path);
    if m.1 is Some {
        (with_attrs(s, m.0), m.1)
    } else {
        items_fold(ctx, with_attrs(s, m.0), ast.nodes@, path, text, true)
    }
}

/// A value with its file, by the file's name.
pub open spec fn sourced<T>(o: Option<FromNamedSource<T>>) -> Option<(Seq<char>, T)> {
    match o {
        Some(f) => Some((f.source@, f.value)),
        None => None,
    }
}

/// The keys of the items.
pub open spec fn child_keys(ch: Seq<(NamedItemContext, FromNamedSource<NamespaceChild>)>) -> Seq<(RefContextV, Spanned<IdentToken>)> {
    ch.map_values(|c: (NamedItemContext, FromNamedSource<NamespaceChild>)| (c.0.context@, c.0.name))
}

/// The namespace as a state of the build.
pub open spec fn state_of(ns: NamespaceCtx) -> BuildState {
    BuildState {
        declared: Some((ns.namespace.source@, ns.namespace.value)),
        version: sourced(ns.version),
        error: sourced(ns.error),
        tag: sourced(ns.tag),
        imports: ns.imports@.map_values(|f: FromNamedSource<RefOrItemContext>| (f.source@, f.value)),
        keys: child_keys(ns.children@),
        values: ns.children@.map_values(|c: (NamedItemContext, FromNamedSource<NamespaceChild>)| (c.1.source@, ChildSpec::Item(c.1.value))),
    }
}

/// The imports with their files, by name.
pub open spec fn sourced_imports(s: Seq<FromNamedSource<RefOrItemContext>>) -> Seq<(Seq<char>, RefOrItemContext)> {
    s.map_values(|f: FromNamedSource<RefOrItemContext>| (f.source@, f.value))
}

/// The items hold the values `values`, with their files; a namespace
/// written inside a file is the namespace built from its items.
pub open spec fn values_hold(values: Seq<(Seq<char>, ChildSpec)>, children: Seq<(NamedItemContext, FromNamedSource<NamespaceChild>)>) -> bool
    decreases children, 0int,
{
    &&& values.len() == children.len()
    &&& forall|j: int| 0 <= j < values.len() ==> {
        &&& (#[trigger] values[j]).0 == children[j].1.source@
        &&& match values[j].1 {
            ChildSpec::Item(c) => children[j].1.value == c,
            ChildSpec::Nested(nctx, ast, text) => children[j].1.value matches NamespaceChild::Namespace(b)
                && built_from(*b, nctx, ast, values[j].0, text),
        }
    }
}

/// The parts of a namespace hold what `st` describes.
pub open spec fn parts_hold(
    st: BuildState,
    declared: Option<FromNamedSource<Spanned<IdentToken>>>,
    version: Option<FromNamedSource<VersionMeta>>,
    error: Option<FromNamedSource<ErrorMeta>>,
    tag: Option<FromNamedSource<TagMeta>>,
    imports: Seq<FromNamedSource<RefOrItemContext>>,
    children: Seq<(NamedItemContext, FromNamedSource<NamespaceChild>)>,
) -> bool
    decreases children, 1int,
{
    &&& st.declared == sourced(declared)
    &&& st.version == sourced(version)
    &&& st.error == sourced(error)
    &&& st.tag == sourced(tag)
    &&& st.imports == sourced_imports(imports)
    &&& st.keys == child_keys(children)
    &&& values_hold(st.values, children)
}

/// The namespace holds what `st` describes.
pub open spec fn holds(ns: NamespaceCtx, st: BuildState) -> bool
    decreases ns, 2int,
{
    parts_hold(st, Some(ns.namespace), ns.version, ns.error, ns.tag, ns.imports@, ns.children@)
}

/// `ns` is the namespace `ctx` built from the file `ast`, read from `path`
/// with the text `text`: its items and attributes as the file gives them,
/// the file's text under its name and nothing else, and the file's top
/// comments.
pub open spec fn built_from(ns: NamespaceCtx, ctx: RefContextV, ast: AstStream, path: Seq<char>, text: Seq<char>) -> bool
    decreases ns, 3int,
{
    &&& stream_outcome(ctx, ast, path, text).1 is None
    &&& ns.ctx@ == ctx
    &&& holds(ns, stream_outcome(ctx, ast, path, text).0)
    &&& ns.sources.wf()
    &&& ns.sources.spec_get(path) matches Some(t) && t@ == text
    &&& forall|k: Seq<char>| k != path ==> #[trigger] ns.sources.spec_get(k) is None
    &&& ns.comments@.len() == 1
    &&& ns.comments@[0].source@ == path
    &&& ns.comments@[0].value == ast.module_comments
}

proof fn lemma_meta_fold_stops(a: Attrs, ms: Seq<Spanned<ItemMeta>>, path: Seq<char>, n: int)
    requires
        0 <= n <= ms.len(),
        meta_fold(a, ms.subrange(0, n), path).1 is Some,
    ensures
        meta_fold(a, ms, path) == meta_fold(a, ms.subrange(0, n), path),
    decreases ms.len() - n,
{
    if n < ms.len() {
        assert(ms.subrange(0, n + 1).drop_last() =~= ms.subrange(0, n));
        lemma_meta_fold_stops(a, ms, path, n + 1);
    } else {
        assert(ms.subrange(0, n) =~= ms);
    }
}

/// Records the attributes of the metadata lines `ms` of the file `path`;
/// a second version or a second error type is refused.
fn take_meta(
    metas: Vec<Spanned<ItemMeta>>,
    version: &mut Option<FromNamedSource<VersionMeta>>,
    error: &mut Option<FromNamedSource<ErrorMeta>>,
    tag: &mut Option<FromNamedSource<TagMeta>>,
    path: &String,
) -> (r: Option<NamespaceError>)
    ensures
        meta_fold((sourced(*old(version)), sourced(*old(error)), sourced(*old(tag))), metas@, path@)
            == ((sourced(*final(version)), sourced(*final(error)), sourced(*final(tag))), issue_of(r)),
{
    let ghost m0 = metas@;
    let ghost a0: Attrs = (sourced(*version), sourced(*error), sourced(*tag));
    let n: usize = metas.len();
    let mut ms = metas;
    let mut k: usize = 0;
    while ms.len() > 0
        invariant
            k <= n,
            n == m0.len(),
            m0 == metas@,
            a0 == (sourced(*old(version)), sourced(*old(error)), sourced(*old(tag))),
            ms@ == m0.subrange(k as int, m0.len() as int),
            meta_fold(a0, m0.subrange(0, k as int), path@) == ((sourced(*version), sourced(*error), sourced(*tag)), None::<NsIssue>),
        decreases ms.len(),
    {
        let m = ms.remove(0);
        proof {
            assert(m0.subrange(0, k + 1).drop_last() =~= m0.subrange(0, k as int));
            assert(m0.subrange(0, k + 1).last() == m);
        }
        match m.value {
            ItemMeta::Version(vm) => {
                if version.is_some() {
                    let span = vm.span.span();
                    let r = Some(NamespaceError::DuplicateAttribute { attribute: String::from_str("version"), path: path.clone(), span });
                    proof {
                        let q = m0.subrange(0, k + 1);
                        assert(q.drop_last() =~= m0.subrange(0, k as int));
                        assert(q.last().value == ItemMeta::Version(vm));
                        assert(meta_fold(a0, q, path@) == ((sourced(*version), sourced(*error), sourced(*tag)), issue_of(r)));
                        lemma_meta_fold_stops(a0, m0, path@, k + 1);
                    }
                    return r;
                }
                *version = Some(FromNamedSource { source: path.clone(), value: vm });
            },
            ItemMeta::Error(em) => {
                if error.is_some() {
                    let span = em.span.span();
                    let r = Some(NamespaceError::DuplicateAttribute { attribute: String::from_str("error"), path: path.clone(), span });
                    proof {
                        let q = m0.subrange(0, k + 1);
                        assert(q.drop_last() =~= m0.subrange(0, k as int));
                        assert(q.last().value == ItemMeta::Error(em));
                        assert(meta_fold(a0, q, path@) == ((sourced(*version), sourced(*error), sourced(*tag)), issue_of(r)));
                        lemma_meta_fold_stops(a0, m0, path@, k + 1);
                    }
                    return r;
                }
                *error = Some(FromNamedSource { source: path.clone(), value: em });
            },
            ItemMeta::Tag(tm) => {
                if tag.is_some() {
                    let span = tm.span.span();
                    let r = Some(NamespaceError::DuplicateAttribute { attribute: String::from_str("tag"), path: path.clone(), span });
                    proof {
                        let q = m0.subrange(0, k + 1);
                        assert(q.drop_last() =~= m0.subrange(0, k as int));
                        assert(q.last().value == ItemMeta::Tag(tm));
                        assert(meta_fold(a0, q, path@) == ((sourced(*version), sourced(*error), sourced(*tag)), issue_of(r)));
                        lemma_meta_fold_stops(a0, m0, path@, k + 1);
                    }
                    return r;
                }
                *tag = Some(FromNamedSource { source: path.clone(), value: tm });
            },
        }
        k += 1;
    }
    assert(m0.subrange(0, m0.len() as int) =~= m0);
    None
}

proof fn lemma_find_key_extends(keys: Seq<(RefContextV, Spanned<IdentToken>)>, p: PathV, n: int)
    requires
        0 <= n <= keys.len(),
        find_key(keys.subrange(0, n), p) is Some,
    ensures
        find_key(keys, p) == find_key(keys.subrange(0, n), p),
    decreases keys.len() - n,
{
    if n < keys.len() {
        assert(keys.subrange(0, n + 1).drop_last() =~= keys.subrange(0, n));
        lemma_find_key_extends(keys, p, n + 1);
    } else {
        assert(keys.subrange(0, n) =~= keys);
    }
}

/// The index of the item of `children` with the path of `name` in `ctx`.
fn find_child(children: &Vec<(NamedItemContext, FromNamedSource<NamespaceChild>)>, ctx: &RefContext, name: &Spanned<IdentToken>) -> (r: Option<usize>)
    ensures
        match find_key(child_keys(children@), item_path(ctx@, *name)) {
            Some(j) => r == Some(j as usize),
            None => r is None,
        },
        r matches Some(j) ==> j < children@.len() && find_key(child_keys(children@), item_path(ctx@, *name)) == Some(j as int),
{
    let ghost keys = child_keys(children@);
    let ghost p = item_path(ctx@, *name);
    let mut i: usize = 0;
    while i < children.len()
        invariant
            i <= children@.len(),
            keys == child_keys(children@),
            p == item_path(ctx@, *name),
            find_key(keys.subrange(0, i as int), p) is None,
        decreases children.len() - i,
    {
        let c = &children[i].0;
        proof {
            assert(keys.subrange(0, i + 1).drop_last() =~= keys.subrange(0, i as int));
            assert(keys.subrange(0, i + 1).last() == (c.context@, c.name));
        }
        let o = compare_paths(&c.context.package, &c.context.namespace, &c.name.value.0, &ctx.package, &ctx.namespace, &name.value.0);
        if let Order::Equal = o {
            proof { lemma_find_key_extends(keys, p, i + 1); }
            return Some(i);
        }
        i += 1;
    }
    assert(keys.subrange(0, i as int) =~= keys);
    None
}

/// Where the item `name` of `ctx` goes among `children`, in the order of
/// paths.
fn child_position(children: &Vec<(NamedItemContext, FromNamedSource<NamespaceChild>)>, ctx: &RefContext, name: &Spanned<IdentToken>) -> (r: usize)
    ensures
        r == insert_at(child_keys(children@), item_path(ctx@, *name)),
        r <= children@.len(),
{
    let ghost keys = child_keys(children@);
    let ghost p = item_path(ctx@, *name);
    let mut i: usize = 0;
    let mut at: usize = 0;
    while i < children.len()
        invariant
            i <= children@.len(),
            at <= i,
            keys == child_keys(children@),
            p == item_path(ctx@, *name),
            at == insert_at(keys.subrange(0, i as int), p),
        decreases children.len() - i,
    {
        let c = &children[i].0;
        proof {
            assert(keys.subrange(0, i + 1).drop_last() =~= keys.subrange(0, i as int));
            assert(keys.subrange(0, i + 1).last() == (c.context@, c.name));
        }
        let o = compare_paths(&c.context.package, &c.context.namespace, &c.name.value.0, &ctx.package, &ctx.namespace, &name.value.0);
        if let Order::Less = o {
            at += 1;
        }
        i += 1;
    }
    assert(keys.subrange(0, i as int) =~= keys);
    at
}


/// Adds the imports `paths` of the file `path`, in order.
fn push_imports(imports: &mut Vec<FromNamedSource<RefOrItemContext>>, paths: Vec<RefOrItemContext>, path: &String)
    ensures
        sourced_imports(final(imports)@) == sourced_imports(old(imports)@) + paths@.map_values(|p: RefOrItemContext| (path@, p)),
{
    let ghost p0 = paths@;
    let ghost i0 = imports@;
    let n: usize = paths.len();
    let mut ps = paths;
    let mut k: usize = 0;
    while ps.len() > 0
        invariant
            k <= n,
            n == p0.len(),
            ps@ == p0.subrange(k as int, n as int),
            sourced_imports(imports@) == sourced_imports(i0) + p0.subrange(0, k as int).map_values(|p: RefOrItemContext| (path@, p)),
        decreases ps.len(),
    {
        let p = ps.remove(0);
        let ghost before = imports@;
        imports.push(FromNamedSource { source: path.clone(), value: p });
        proof {
            assert(sourced_imports(imports@) =~= sourced_imports(before).push((path@, p)));
            assert(p0.subrange(0, k + 1).map_values(|p: RefOrItemContext| (path@, p))
                =~= p0.subrange(0, k as int).map_values(|p: RefOrItemContext| (path@, p)).push((path@, p)));
        }
        k += 1;
    }
    assert(p0.subrange(0, n as int) =~= p0);
}

/// Adds the item `child` of the name `name`, written at `node`, to the
/// namespace `ctx`: refused before a namespace is declared; an item of a
/// name already taken replaces it and is refused.
fn add_child(
    ctx: &RefContext,
    declared: &Option<FromNamedSource<Spanned<IdentToken>>>,
    children: &mut Vec<(NamedItemContext, FromNamedSource<NamespaceChild>)>,
    name: Spanned<IdentToken>,
    node: Span,
    child: NamespaceChild,
    kind: &str,
    path: &String,
    st: Ghost<BuildState>,
) -> (r: Option<NamespaceError>)
    requires
        st@.declared == sourced(*declared),
        st@.keys == child_keys(old(children)@),
        values_hold(st@.values, old(children)@),
    ensures
        typed_step(ctx@, st@, name, node, child, kind@, path@).0.keys == child_keys(final(children)@),
        values_hold(typed_step(ctx@, st@, name, node, child, kind@, path@).0.values, final(children)@),
        typed_step(ctx@, st@, name, node, child, kind@, path@).0 == (BuildState {
            keys: typed_step(ctx@, st@, name, node, child, kind@, path@).0.keys,
            values: typed_step(ctx@, st@, name, node, child, kind@, path@).0.values,
            ..st@
        }),
        issue_of(r) == typed_step(ctx@, st@, name, node, child, kind@, path@).1,
{
    let ghost t = typed_step(ctx@, st@, name, node, child, kind@, path@);
    let ghost c0 = children@;
    match declared {
        None => {
            let span = node.span();
            assert(t.0 == st@);
            assert(values_hold(t.0.values, children@));
            Some(NamespaceError::NotDeclared { span: Some(span) })
        },
        Some(d) => {
            match find_child(children, ctx, &name) {
                Some(j) => {
                    let kept = children.remove(j);
                    let ghost item = (kept.0, FromNamedSource { source: *path, value: child });
                    let nm = name.value.0.clone();
                    let span = name.span.span();
                    children.insert(j, (kept.0, FromNamedSource { source: path.clone(), value: child }));
                    proof {
                        assert(children@ =~= c0.update(j as int, item));
                        assert(child_keys(children@) =~= child_keys(c0));
                        let vs = st@.values.update(j as int, (path@, ChildSpec::Item(child)));
                        assert(t.0.values == vs);
                        assert forall|x: int| 0 <= x < vs.len() implies {
                            &&& (#[trigger] vs[x]).0 == children@[x].1.source@
                            &&& match vs[x].1 {
                                ChildSpec::Item(c) => children@[x].1.value == c,
                                ChildSpec::Nested(nctx2, ast2, text2) => children@[x].1.value matches NamespaceChild::Namespace(bb)
                                    && built_from(*bb, nctx2, ast2, vs[x].0, text2),
                            }
                        } by {
                            if x != j as int {
                                assert(vs[x] == st@.values[x]);
                            }
                        }
                    }
                    Some(NamespaceError::IdentConflict { namespace: d.value.value.0.clone(), name: nm, kind: String::from_str(kind), span })
                },
                None => {
                    let at = child_position(children, ctx, &name);
                    let key = ctx.item(name);
                    let ghost item = (key, FromNamedSource { source: *path, value: child });
                    children.insert(at, (key, FromNamedSource { source: path.clone(), value: child }));
                    proof {
                        assert(children@ =~= c0.insert(at as int, item));
                        assert(child_keys(children@) =~= child_keys(c0).insert(at as int, (ctx@, name)));
                        let vs = st@.values.insert(at as int, (path@, ChildSpec::Item(child)));
                        assert(t.0.values == vs);
                        assert forall|x: int| 0 <= x < vs.len() implies {
                            &&& (#[trigger] vs[x]).0 == children@[x].1.source@
                            &&& match vs[x].1 {
                                ChildSpec::Item(c) => children@[x].1.value == c,
                                ChildSpec::Nested(nctx2, ast2, text2) => children@[x].1.value matches NamespaceChild::Namespace(bb)
                                    && built_from(*bb, nctx2, ast2, vs[x].0, text2),
                            }
                        } by {
                            if x < at as int {
                                assert(vs[x] == st@.values[x]);
                                assert(children@[x] == c0[x]);
                            } else if x > at as int {
                                assert(vs[x] == st@.values[x - 1]);
                                assert(children@[x] == c0[x - 1]);
                            }
                        }
                    }
                    None
                },
            }
        },
    }
}


proof fn lemma_items_fold_stops(ctx: RefContextV, s: BuildState, nodes: Seq<Spanned<Item>>, path: Seq<char>, text: Seq<char>, merging: bool, n: int)
    requires
        0 <= n <= nodes.len(),
        items_fold(ctx, s, nodes.subrange(0, n), path, text, merging).1 is Some,
    ensures
        items_fold(ctx, s, nodes, path, text, merging) == items_fold(ctx, s, nodes.subrange(0, n), path, text, merging),
    decreases nodes.len() - n,
{
    if n < nodes.len() {
        assert(nodes.subrange(0, n + 1).drop_last() =~= nodes.subrange(0, n));
        lemma_items_fold_stops(ctx, s, nodes, path, text, merging, n + 1);
    } else {
        assert(nodes.subrange(0, n) =~= nodes);
    }
}

/// Adds the items `items` of the file `path`, in order, to the parts of
/// the namespace `ctx`; the first refused item stops the walk.
fn build_items(
    ctx: &RefContext,
    declared: &mut Option<FromNamedSource<Spanned<IdentToken>>>,
    version: &mut Option<FromNamedSource<VersionMeta>>,
    error: &mut Option<FromNamedSource<ErrorMeta>>,
    tag: &mut Option<FromNamedSource<TagMeta>>,
    imports: &mut Vec<FromNamedSource<RefOrItemContext>>,
    children: &mut Vec<(NamedItemContext, FromNamedSource<NamespaceChild>)>,
    items: Vec<Spanned<Item>>,
    path: &String,
    source: &String,
    merging: bool,
    st: Ghost<BuildState>,
) -> (r: Option<NamespaceError>)
    requires
        parts_hold(st@, *old(declared), *old(version), *old(error), *old(tag), old(imports)@, old(children)@),
    ensures
        parts_hold(items_fold(ctx@, st@, items@, path@, source@, merging).0, *final(declared), *final(version), *final(error), *final(tag), final(imports)@, final(children)@),
        issue_of(r) == items_fold(ctx@, st@, items@, path@, source@, merging).1,
        merging ==> *final(declared) == *old(declared),
    decreases items,
{
    let ghost n0 = items@;
    let n: usize = items.len();
    let mut nodes = items;
    let mut k: usize = 0;
    let ghost mut cur = st@;
    while nodes.len() > 0
        invariant
            k <= n,
            n == n0.len(),
            n0 == items@,
            nodes@ == n0.subrange(k as int, n as int),
            items_fold(ctx@, st@, n0.subrange(0, k as int), path@, source@, merging) == (cur, None::<NsIssue>),
            parts_hold(cur, *declared, *version, *error, *tag, imports@, children@),
            merging ==> *declared == *old(declared),
        decreases nodes.len(),
    {
        let item = nodes.remove(0);
        let ghost q = n0.subrange(0, k + 1);
        let ghost next = items_fold(ctx@, st@, q, path@, source@, merging);
        proof {
            assert(q.drop_last() =~= n0.subrange(0, k as int));
            assert(q.last() == item);
            assert(n0[k as int] == item);
        }
        let mut issue: Option<NamespaceError> = None;
        match item.value {
            Item::Namespace(d) => {
                let NamespaceDef { meta, name } = d;
                if merging {
                    let mut conflict = false;
                    if let Some(x) = &*declared {
                        if !str_eq(&x.value.value.0, &name.value.0) {
                            issue = Some(NamespaceError::DirConflict {
                                path: path.clone(), parent: x.value.value.0.clone(), attempted: name.value.0.clone(), span: name.span.span(),
                            });
                            conflict = true;
                        }
                    }
                    if !conflict {
                        issue = take_meta(meta, version, error, tag, path);
                    }
                } else {
                    issue = take_meta(meta, version, error, tag, path);
                    if issue.is_none() {
                        match &*declared {
                            Some(x) => {
                                if !str_eq(&x.value.value.0, &name.value.0) {
                                    issue = Some(NamespaceError::DirConflict {
                                        path: path.clone(), parent: x.value.value.0.clone(), attempted: name.value.0.clone(), span: name.span.span(),
                                    });
                                }
                            },
                            None => {
                                *declared = Some(FromNamedSource { source: path.clone(), value: name });
                            },
                        }
                    }
                }
            },
            Item::Use(u) => {
                push_imports(imports, u.paths, path);
            },
            Item::SpannedNamespace(inner) => {
                let name = inner.name;
                let nctx = ctx.enter(name.value.0.as_str());
                proof {
                    assert(decreases_to!(items => items@));
                    assert(decreases_to!(items@ => items@[k as int]));
                }
                let ghost inner_ast = inner.ast;
                match from_ast_stream(&nctx, inner.ast, path, source) {
                    Err(e) => {
                        issue = Some(e);
                    },
                    Ok(b) => {
                        if find_child(children, &nctx, &name).is_some() {
                            issue = Some(NamespaceError::Duplicate { name: name.value.0.clone(), span: name.span.span() });
                        } else {
                            let at = child_position(children, &nctx, &name);
                            let ghost c0 = children@;
                            let key = nctx.item(name);
                            let ghost built = b;
                            let ghost entry = (key, FromNamedSource { source: *path, value: NamespaceChild::Namespace(Box::new(b)) });
                            children.insert(at, (key, FromNamedSource { source: path.clone(), value: NamespaceChild::Namespace(Box::new(b)) }));
                            proof {
                                assert(children@ =~= c0.insert(at as int, entry));
                                assert(child_keys(children@) =~= child_keys(c0).insert(at as int, (nctx@, name)));
                                let vs = cur.values.insert(at as int, (path@, ChildSpec::Nested(nctx@, inner_ast, source@)));
                                assert(built_from(built, nctx@, inner_ast, path@, source@));
                                assert forall|x: int| 0 <= x < vs.len() implies {
                                    &&& (#[trigger] vs[x]).0 == children@[x].1.source@
                                    &&& match vs[x].1 {
                                        ChildSpec::Item(c) => children@[x].1.value == c,
                                        ChildSpec::Nested(nctx2, ast2, text2) => children@[x].1.value matches NamespaceChild::Namespace(bb)
                                            && built_from(*bb, nctx2, ast2, vs[x].0, text2),
                                    }
                                } by {
                                    if x < at as int {
                                        assert(vs[x] == cur.values[x]);
                                        assert(children@[x] == c0[x]);
                                    } else if x > at as int {
                                        assert(vs[x] == cur.values[x - 1]);
                                        assert(children@[x] == c0[x - 1]);
                                    }
                                }
                            }
                        }
                    },
                }
            },
            Item::OneOf(d) => {
                let name = dup_ident(&d.def.value.name);
                let node = d.def.span;
                issue = add_child(ctx, declared, children, name, node, NamespaceChild::OneOf(d), "oneof", path, Ghost(cur));
            },
            Item::Enum(d) => {
                let name = dup_ident(&d.def.value.name);
                let node = d.def.span;
                issue = add_child(ctx, declared, children, name, node, NamespaceChild::Enum(d), "enum", path, Ghost(cur));
            },
            Item::Struct(d) => {
                let name = dup_ident(&d.def.value.name);
                let node = d.def.span;
                issue = add_child(ctx, declared, children, name, node, NamespaceChild::Struct(d), "struct", path, Ghost(cur));
            },
            Item::Type(d) => {
                let name = dup_ident(&d.def.value.name);
                let node = d.def.span;
                issue = add_child(ctx, declared, children, name, node, NamespaceChild::Type(d), "type", path, Ghost(cur));
            },
            Item::Error(d) => {
                let name = dup_ident(&d.def.value.name);
                let node = d.def.span;
                issue = add_child(ctx, declared, children, name, node, NamespaceChild::Error(d), "error", path, Ghost(cur));
            },
            Item::Operation(d) => {
                let name = dup_ident(&d.def.value.name);
                let node = d.def.span;
                issue = add_child(ctx, declared, children, name, node, NamespaceChild::Operation(d), "operation", path, Ghost(cur));
            },
        }
        proof {
            cur = next.0;
        }
        if issue.is_some() {
            proof { lemma_items_fold_stops(ctx@, st@, n0, path@, source@, merging, k + 1); }
            return issue;
        }
        k += 1;
    }
    assert(n0.subrange(0, n as int) =~= n0);
    None
}

impl NamespaceCtx {
    /// The namespace `ctx`, declared as `namespace`, with nothing in it yet.
    pub fn from_empty(ctx: &RefContext, namespace: FromNamedSource<Spanned<IdentToken>>) -> (r: NamespaceCtx)
        ensures
            r.ctx@ == ctx@,
            r.namespace == namespace,
            r.sources.wf() && r.sources.entries().len() == 0,
            r.comments@.len() == 0,
            state_of(r) == (BuildState {
                declared: Some((namespace.source@, namespace.value)),
                version: None,
                error: None,
                tag: None,
                imports: Seq::empty(),
                keys: Seq::empty(),
                values: Seq::empty(),
            }),
    {
        let r = NamespaceCtx {
            ctx: ctx.duplicate(),
            sources: StrMap::new(),
            comments: Vec::new(),
            namespace,
            version: None,
            error: None,
            tag: None,
            imports: Vec::new(),
            children: Vec::new(),
            resolved_versions: StrMap::new(),
            resolved_errors: StrMap::new(),
            resolved_aliases: StrMap::new(),
        };
        proof {
            assert(state_of(r).imports =~= Seq::empty());
            assert(state_of(r).keys =~= Seq::empty());
            assert(state_of(r).values =~= Seq::empty());
        }
        r
    }
}

/// Builds the namespace `ctx` from the file `ast`, read from `path` with
/// the text `source`: its metadata lines, then its items in order. The
/// items are kept in the order of their paths; the file's text and its
/// top comments are kept with the file's name. A file that declares no
/// namespace, an item before the declaration, a second attribute of a
/// kind, a second namespace name, and a name declared twice are refused,
/// the first of them in the file.
pub fn from_ast_stream(ctx: &RefContext, ast: AstStream, path: &String, source: &String) -> (r: Result<NamespaceCtx, NamespaceError>)
    ensures
        match stream_outcome(ctx@, ast, path@, source@).1 {
            Some(i) => r matches Err(e) && e@ == i,
            None => r matches Ok(ns) && {
                &&& ns.ctx@ == ctx@
                &&& holds(ns, stream_outcome(ctx@, ast, path@, source@).0)
                &&& ns.sources.wf()
                &&& ns.sources.spec_get(path@) == Some(*source)
                &&& forall|k: Seq<char>| k != path@ ==> #[trigger] ns.sources.spec_get(k) is None
                &&& ns.comments@ == seq![FromNamedSource { source: *path, value: ast.module_comments }]
                &&& built_from(ns, ctx@, ast, path@, source@)
            },
        },
    decreases ast,
{
    let ghost a = ast;
    let AstStream { module_comments, module_meta, nodes } = ast;
    let mut version: Option<FromNamedSource<VersionMeta>> = None;
    let mut error: Option<FromNamedSource<ErrorMeta>> = None;
    let mut tag: Option<FromNamedSource<TagMeta>> = None;
    let m = take_meta(module_meta, &mut version, &mut error, &mut tag, path);
    if let Some(e) = m {
        return Err(e);
    }
    let ghost s0 = with_attrs(empty_state(), (sourced(version), sourced(error), sourced(tag)));
    let mut declared: Option<FromNamedSource<Spanned<IdentToken>>> = None;
    let mut imports: Vec<FromNamedSource<RefOrItemContext>> = Vec::new();
    let mut children: Vec<(NamedItemContext, FromNamedSource<NamespaceChild>)> = Vec::new();
    proof {
        assert(sourced_imports(imports@) =~= Seq::empty());
        assert(child_keys(children@) =~= Seq::empty());
        assert(decreases_to!(a => a.nodes));
    }
    let b = build_items(ctx, &mut declared, &mut version, &mut error, &mut tag, &mut imports, &mut children, nodes, path, source, false, Ghost(s0));
    if let Some(e) = b {
        return Err(e);
    }
    match declared {
        None => Err(NamespaceError::NotDeclared { span: None }),
        Some(namespace) => {
            let mut sources: StrMap<String> = StrMap::new();
            let _ = sources.insert(path.clone(), source.clone());
            let mut comments: Vec<FromNamedSource<CommentStream>> = Vec::new();
            comments.push(FromNamedSource { source: path.clone(), value: module_comments });
            proof {
                assert(comments@ =~= seq![FromNamedSource { source: *path, value: a.module_comments }]);
                assert forall|k: Seq<char>| k != path@ implies #[trigger] sources.spec_get(k) is None by {
                    assert(key_index(Seq::<(String, String)>::empty(), k) is None);
                }
            }
            Ok(NamespaceCtx { ctx: ctx.duplicate(), sources, comments, namespace, version, error, tag, imports, children, resolved_versions: StrMap::new(), resolved_errors: StrMap::new(), resolved_aliases: StrMap::new() })
        },
    }
}

/// Adds the file `ast`, read from `path` with the text `source`, to the
/// namespace `ns`: the file's text is kept under its name, then its
/// metadata lines and its items are taken in order, and at the end its top
/// comments are kept. A second attribute of a kind, another namespace
/// name, and a name declared twice are refused, the first of them in the
/// file; what came before it is kept.
pub fn merge_ast_stream(ns: &mut NamespaceCtx, ast: AstStream, path: &String, source: &String) -> (r: Result<(), NamespaceError>)
    requires
        old(ns).sources.wf(),
    ensures
        final(ns).ctx == old(ns).ctx,
        final(ns).namespace == old(ns).namespace,
        holds(*final(ns), merge_outcome(old(ns).ctx@, state_of(*old(ns)), ast, path@, source@).0),
        match merge_outcome(old(ns).ctx@, state_of(*old(ns)), ast, path@, source@).1 {
            Some(i) => r matches Err(e) && e@ == i,
            None => r is Ok,
        },
        final(ns).sources.wf(),
        final(ns).sources.spec_get(path@) == Some(*source),
        forall|k: Seq<char>| k != path@ ==> #[trigger] final(ns).sources.spec_get(k) == old(ns).sources.spec_get(k),
        r is Ok ==> final(ns).comments@ == old(ns).comments@.push(FromNamedSource { source: *path, value: ast.module_comments }),
        r is Err ==> final(ns).comments@ == old(ns).comments@,
{
    let ghost s0 = state_of(*ns);
    let ghost a = ast;
    let _ = ns.sources.insert(path.clone(), source.clone());
    let AstStream { module_comments, module_meta, nodes } = ast;
    let m = take_meta(module_meta, &mut ns.version, &mut ns.error, &mut ns.tag, path);
    if let Some(e) = m {
        return Err(e);
    }
    let ghost s1 = with_attrs(s0, (sourced(ns.version), sourced(ns.error), sourced(ns.tag)));
    let mut declared = Some(FromNamedSource { source: ns.namespace.source.clone(), value: dup_ident(&ns.namespace.value) });
    proof {
        assert(declared == Some(ns.namespace));
    }
    let b = build_items(&ns.ctx, &mut declared, &mut ns.version, &mut ns.error, &mut ns.tag, &mut ns.imports, &mut ns.children, nodes, path, source, true, Ghost(s1));
    match b {
        Some(e) => Err(e),
        None => {
            ns.comments.push(FromNamedSource { source: path.clone(), value: module_comments });
            Ok(())
        },
    }
}

/// No two items have one path.
pub open spec fn paths_distinct(keys: Seq<(RefContextV, Spanned<IdentToken>)>) -> bool {
    forall|i: int, j: int| 0 <= i < j < keys.len() ==> key_path(#[trigger] keys[i]) != key_path(#[trigger] keys[j])
}

proof fn lemma_find_key_none(keys: Seq<(RefContextV, Spanned<IdentToken>)>, p: PathV)
    requires
        find_key(keys, p) is None,
    ensures
        forall|i: int| 0 <= i < keys.len() ==> key_path(#[trigger] keys[i]) != p,
    decreases keys.len(),
{
    if keys.len() > 0 {
        lemma_find_key_none(keys.drop_last(), p);
        assert forall|i: int| 0 <= i < keys.len() implies key_path(#[trigger] keys[i]) != p by {
            if i < keys.len() - 1 {
                assert(keys[i] == keys.drop_last()[i]);
            }
        }
    }
}

proof fn lemma_insert_at_range(keys: Seq<(RefContextV, Spanned<IdentToken>)>, p: PathV)
    ensures
        0 <= insert_at(keys, p) <= keys.len(),
    decreases keys.len(),
{
    if keys.len() > 0 {
        lemma_insert_at_range(keys.drop_last(), p);
    }
}

proof fn lemma_with_child_distinct(s: BuildState, k: (RefContextV, Spanned<IdentToken>), v: (Seq<char>, ChildSpec))
    requires
        paths_distinct(s.keys),
        find_key(s.keys, key_path(k)) is None,
    ensures
        paths_distinct(with_child(s, k, v).keys),
{
    lemma_find_key_none(s.keys, key_path(k));
    lemma_insert_at_range(s.keys, key_path(k));
    let at = insert_at(s.keys, key_path(k));
    let ks = s.keys.insert(at, k);
    assert forall|i: int, j: int| 0 <= i < j < ks.len() implies key_path(#[trigger] ks[i]) != key_path(#[trigger] ks[j]) by {
        let oi = if i < at { i } else { i - 1 };
        let oj = if j < at { j } else { j - 1 };
        if i != at && j != at {
            assert(ks[i] == s.keys[oi]);
            assert(ks[j] == s.keys[oj]);
        } else if i == at {
            assert(ks[j] == s.keys[oj]);
        } else {
            assert(ks[i] == s.keys[oi]);
        }
    }
}

proof fn lemma_typed_distinct(ctx: RefContextV, s: BuildState, name: Spanned<IdentToken>, node: Span, child: NamespaceChild, kind: Seq<char>, path: Seq<char>)
    requires
        paths_distinct(s.keys),
    ensures
        paths_distinct(typed_step(ctx, s, name, node, child, kind, path).0.keys),
{
    if s.declared is Some && find_key(s.keys, item_path(ctx, name)) is None {
        lemma_with_child_distinct(s, (ctx, name), (path, ChildSpec::Item(child)));
    }
}

proof fn lemma_items_fold_distinct(ctx: RefContextV, s: BuildState, nodes: Seq<Spanned<Item>>, path: Seq<char>, text: Seq<char>, merging: bool)
    requires
        paths_distinct(s.keys),
    ensures
        paths_distinct(items_fold(ctx, s, nodes, path, text, merging).0.keys),
    decreases nodes.len(),
{
    if nodes.len() > 0 {
        lemma_items_fold_distinct(ctx, s, nodes.drop_last(), path, text, merging);
        let prev = items_fold(ctx, s, nodes.drop_last(), path, text, merging);
        if prev.1 is None {
            let t = prev.0;
            match nodes.last().value {
                Item::SpannedNamespace(inner) => {
                    let nctx = entered(ctx, inner.name.value.0@);
                    if find_key(t.keys, item_path(nctx, inner.name)) is None {
                        lemma_with_child_distinct(t, (nctx, inner.name), (path, ChildSpec::Nested(nctx, inner.ast, text)));
                    }
                },
                Item::OneOf(d) => lemma_typed_distinct(ctx, t, d.def.value.name, d.def.span, NamespaceChild::OneOf(d), "oneof"@, path),
                Item::Enum(d) => lemma_typed_distinct(ctx, t, d.def.value.name, d.def.span, NamespaceChild::Enum(d), "enum"@, path),
                Item::Struct(d) => lemma_typed_distinct(ctx, t, d.def.value.name, d.def.span, NamespaceChild::Struct(d), "struct"@, path),
                Item::Type(d) => lemma_typed_distinct(ctx, t, d.def.value.name, d.def.span, NamespaceChild::Type(d), "type"@, path),
                Item::Error(d) => lemma_typed_distinct(ctx, t, d.def.value.name, d.def.span, NamespaceChild::Error(d), "error"@, path),
                Item::Operation(d) => lemma_typed_distinct(ctx, t, d.def.value.name, d.def.span, NamespaceChild::Operation(d), "operation"@, path),
                _ => {},
            }
        }
    }
}

/// A namespace built from a file declares each path once: no two of its
/// items have one path.
pub proof fn law_built_paths_distinct(ctx: RefContextV, ast: AstStream, path: Seq<char>, text: Seq<char>)
    requires
        stream_outcome(ctx, ast, path, text).1 is None,
    ensures
        paths_distinct(stream_outcome(ctx, ast, path, text).0.keys),
{
    let m = meta_fold((None, None, None), ast.module_meta@, path);
    lemma_items_fold_distinct(ctx, with_attrs(empty_state(), m.0), ast.nodes@, path, text, false);
}

/// Adding a file to a namespace whose items have distinct paths keeps them
/// distinct, whether the file is taken or refused.
pub proof fn law_merge_keeps_paths_distinct(ns: NamespaceCtx, ast: AstStream, path: Seq<char>, text: Seq<char>)
    requires
        paths_distinct(state_of(ns).keys),
    ensures
        paths_distinct(merge_outcome(ns.ctx@, state_of(ns), ast, path, text).0.keys),
{
    let s = state_of(ns);
    let m = meta_fold((s.version, s.error, s.tag), ast.module_meta@, path);
    if m.1 is None {
        lemma_items_fold_distinct(ns.ctx@, with_attrs(s, m.0), ast.nodes@, path, text, true);
    }
}

/// The items of a namespace by the view of their keys.
pub open spec fn child_entries(ch: Seq<(NamedItemContext, FromNamedSource<NamespaceChild>)>) -> Seq<((RefContextV, Spanned<IdentToken>), FromNamedSource<NamespaceChild>)> {
    ch.map_values(|c: (NamedItemContext, FromNamedSource<NamespaceChild>)| ((c.0.context@, c.0.name), c.1))
}

/// `es` with `v` put under the key `k`: in place of the value of an item
/// of the same path, whose key stays, else added in the order of paths.
pub open spec fn put_entry(
    es: Seq<((RefContextV, Spanned<IdentToken>), FromNamedSource<NamespaceChild>)>,
    k: (RefContextV, Spanned<IdentToken>),
    v: FromNamedSource<NamespaceChild>,
) -> Seq<((RefContextV, Spanned<IdentToken>), FromNamedSource<NamespaceChild>)> {
    let keys = es.map_values(|e: ((RefContextV, Spanned<IdentToken>), FromNamedSource<NamespaceChild>)| e.0);
    match find_key(keys, key_path(k)) {
        Some(j) => es.update(j, (es[j].0, v)),
        None => es.insert(insert_at(keys, key_path(k)), (k, v)),
    }
}

/// `es` with the structs `structs`, generated in the namespace `ctx`, put
/// in turn under their names.
pub open spec fn put_structs(
    es: Seq<((RefContextV, Spanned<IdentToken>), FromNamedSource<NamespaceChild>)>,
    ctx: RefContextV,
    structs: Seq<FromNamedSource<Spanned<StructDef>>>,
) -> Seq<((RefContextV, Spanned<IdentToken>), FromNamedSource<NamespaceChild>)>
    decreases structs.len(),
{
    if structs.len() == 0 {
        es
    } else {
        let s = structs.last();
        put_entry(
            put_structs(es, ctx, structs.drop_last()),
            (ctx, s.value.value.def.value.name),
            FromNamedSource { source: s.source, value: NamespaceChild::Struct(s.value.value) },
        )
    }
}

/// Puts the struct `s`, generated in `ctx`, among `children` under its name.
fn put_struct(
    children: &mut Vec<(NamedItemContext, FromNamedSource<NamespaceChild>)>,
    ctx: &RefContext,
    s: FromNamedSource<Spanned<StructDef>>,
)
    ensures
        child_entries(final(children)@) == put_entry(
            child_entries(old(children)@),
            (ctx@, s.value.value.def.value.name),
            FromNamedSource { source: s.source, value: NamespaceChild::Struct(s.value.value) },
        ),
{
    let ghost c0 = children@;
    let ghost es = child_entries(c0);
    let ghost keys = es.map_values(|e: ((RefContextV, Spanned<IdentToken>), FromNamedSource<NamespaceChild>)| e.0);
    assert(keys =~= child_keys(c0));
    let name = dup_ident(&s.value.value.def.value.name);
    let ghost v = FromNamedSource { source: s.source, value: NamespaceChild::Struct(s.value.value) };
    let child = FromNamedSource { source: s.source, value: NamespaceChild::Struct(s.value.value) };
    match find_child(children, ctx, &name) {
        Some(j) => {
            let kept = children.remove(j);
            children.insert(j, (kept.0, child));
            proof {
                assert(children@ =~= c0.update(j as int, (kept.0, v)));
                assert(child_entries(children@) =~= es.update(j as int, (es[j as int].0, v)));
            }
        },
        None => {
            let at = child_position(children, ctx, &name);
            let key = ctx.item(name);
            children.insert(at, (key, child));
            proof {
                assert(children@ =~= c0.insert(at as int, (key, v)));
                assert(child_entries(children@) =~= es.insert(at as int, ((ctx@, name), v)));
            }
        },
    }
}

/// Puts the structs `structs`, generated in `ctx`, among `children` in
/// turn.
fn put_all_structs(
    children: &mut Vec<(NamedItemContext, FromNamedSource<NamespaceChild>)>,
    ctx: &RefContext,
    structs: Vec<FromNamedSource<Spanned<StructDef>>>,
)
    ensures
        child_entries(final(children)@) == put_structs(child_entries(old(children)@), ctx@, structs@),
{
    let ghost all = structs@;
    let ghost e0 = child_entries(children@);
    let mut rest = structs;
    let n: usize = rest.len();
    let mut k: usize = 0;
    while rest.len() > 0
        invariant
            all.len() == n,
            k <= all.len(),
            rest@ == all.subrange(k as int, all.len() as int),
            child_entries(children@) == put_structs(e0, ctx@, all.subrange(0, k as int)),
        decreases rest.len(),
    {
        let s = rest.remove(0);
        proof {
            assert(s == all[k as int]);
            assert(all.subrange(0, k + 1).drop_last() =~= all.subrange(0, k as int));
            assert(all.subrange(0, k + 1).last() == s);
        }
        put_struct(children, ctx, s);
        k += 1;
        assert(rest@ =~= all.subrange(k as int, all.len() as int));
    }
    assert(all.subrange(0, all.len() as int) =~= all);
}

impl NamespaceCtx {
    /// Takes in what resolution settled: the structs it generated become
    /// items of the namespace, anonymous ones first, each in place of an
    /// item of the same path (whose key stays) or else in path order; and
    /// the versions, error types and aliases it settled are recorded.
    pub fn integrate_resolution(&mut self, resolution: NamespaceResolution)
        ensures
            child_entries(final(self).children@) == put_structs(
                put_structs(child_entries(old(self).children@), old(self).ctx@, resolution.anonymous_structs@),
                old(self).ctx@,
                resolution.union_structs@,
            ),
            final(self).resolved_versions == resolution.versions,
            final(self).resolved_errors == resolution.errors,
            final(self).resolved_aliases == resolution.resolved_aliases,
            final(self).ctx == old(self).ctx,
            final(self).sources == old(self).sources,
            final(self).comments == old(self).comments,
            final(self).namespace == old(self).namespace,
            final(self).error == old(self).error,
            final(self).version == old(self).version,
            final(self).tag == old(self).tag,
            final(self).imports == old(self).imports,
    {
        let NamespaceResolution { anonymous_structs, identified_unions: _, union_structs, resolved_aliases, versions, errors } = resolution;
        put_all_structs(&mut self.children, &self.ctx, anonymous_structs);
        put_all_structs(&mut self.children, &self.ctx, union_structs);
        self.resolved_versions = versions;
        self.resolved_errors = errors;
        self.resolved_aliases = resolved_aliases;
    }
}

} // verus!
