//! The checks of a package's root file: its attributes, its one namespace
//! declaration, the namespaces it brings in with `use`, and those it
//! writes out in place.
use vstd::prelude::*;
use crate::defs::{RawSpan, Spanned};
use crate::ast::{ErrorMeta, ItemMeta, reference_text};
use crate::common::{FromNamedSource, NamespaceChild, NamespaceCtx};
use crate::items::{AstStream, Item};
use crate::namespace_build::{BuildState, NamespaceError, NsIssue, holds, merge_ast_stream, merge_outcome, state_of};
use crate::paths::{RefContext, RefContextV};
use crate::toks::IdentToken;
use crate::text::str_eq;
use crate::ast_ops::dup_ident;

verus! {

/// What is wrong with a package's root file, as values.
pub enum SchemaIssue {
    /// An attribute given twice: the attribute, the file, where the second is.
    DuplicateAttribute(Seq<char>, Seq<char>, RawSpan),
    /// A second namespace declaration, where it is.
    NamespaceConflict(RawSpan),
    /// An item that has no place in the root file, where it is.
    InvalidItem(RawSpan),
    /// A namespace written out in the root file is refused.
    Namespace(NsIssue),
    /// Two namespaces of one name written out in the root file.
    Duplicate(Seq<char>, RawSpan),
    /// A `use` whose files declare another namespace: the name used, the
    /// name declared, where the `use` is.
    Mismatch(Seq<char>, Seq<char>, RawSpan),
    /// The error attribute names no error type: the message, where it is.
    InvalidErrorAttr(Seq<char>, RawSpan),
}

/// Why a package's root file is refused.
#[derive(Debug)]
pub enum SchemaError {
    DuplicateAttribute { attribute: String, path: String, span: RawSpan },
    NamespaceConflict { span: RawSpan },
    InvalidItem { span: RawSpan },
    Namespace(NamespaceError),
    Duplicate { name: String, span: RawSpan },
    Mismatch { expected: String, found: String, span: RawSpan },
    InvalidErrorAttr { message: String, span: RawSpan },
}

impl View for SchemaError {
    type V = SchemaIssue;

    open spec fn view(&self) -> SchemaIssue {
        match self {
            SchemaError::DuplicateAttribute { attribute, path, span } => SchemaIssue::DuplicateAttribute(attribute@, path@, *span),
            SchemaError::NamespaceConflict { span } => SchemaIssue::NamespaceConflict(*span),
            SchemaError::InvalidItem { span } => SchemaIssue::InvalidItem(*span),
            SchemaError::Namespace(e) => SchemaIssue::Namespace(e@),
            SchemaError::Duplicate { name, span } => SchemaIssue::Duplicate(name@, *span),
            SchemaError::Mismatch { expected, found, span } => SchemaIssue::Mismatch(expected@, found@, *span),
            SchemaError::InvalidErrorAttr { message, span } => SchemaIssue::InvalidErrorAttr(message@, *span),
        }
    }
}

/// What the root file asks for: the namespace it declares, its error
/// attribute, the namespaces it brings in with `use` (each by name, with
/// where the `use` is), and the namespaces it writes out, by name.
#[derive(Debug)]
pub struct LibPlan {
    pub namespace: Option<Spanned<IdentToken>>,
    pub error: Option<ErrorMeta>,
    pub uses: Vec<(String, RawSpan)>,
    pub namespaces: Vec<(String, NamespaceCtx)>,
}

/// The root file's attributes so far: whether a version was given, the
/// error attribute, if one was, and whether a tagging was given.
pub type LibAttrs = (bool, Option<ErrorMeta>, bool);

/// The attributes of the root file's metadata lines, in order: a second
/// version, error type or tagging is refused.
pub open spec fn lib_meta_fold(a: LibAttrs, ms: Seq<Spanned<ItemMeta>>, path: Seq<char>) -> (LibAttrs, Option<SchemaIssue>)
    decreases ms.len(),
{
    if ms.len() == 0 {
        (a, None)
    } else {
        let prev = lib_meta_fold(a, ms.drop_last(), path);
        if prev.1 is Some {
            prev
        } else {
            match ms.last().value {
                ItemMeta::Version(vm) => if prev.0.0 {
                    (prev.0, Some(SchemaIssue::DuplicateAttribute("version"@, path, vm.span.spec_raw())))
                } else {
                    ((true, prev.0.1, prev.0.2), None)
                },
                ItemMeta::Error(em) => if prev.0.1 is Some {
                    (prev.0, Some(SchemaIssue::DuplicateAttribute("error"@, path, em.span.spec_raw())))
                } else {
                    ((prev.0.0, Some(em), prev.0.2), None)
                },
                ItemMeta::Tag(tm) => if prev.0.2 {
                    (prev.0, Some(SchemaIssue::DuplicateAttribute("tag"@, path, tm.span.spec_raw())))
                } else {
                    ((prev.0.0, prev.0.1, true), None)
                },
            }
        }
    }
}

/// The root file's items so far: the namespace declared, the uses, and the
/// namespaces written out, each by name with what it was built to.
pub struct LibState {
    pub namespace: Option<Spanned<IdentToken>>,
    pub uses: Seq<(Seq<char>, RawSpan)>,
    pub written: Seq<(Seq<char>, RefContextV, BuildState)>,
}

/// A namespace of the name `name` and nothing else yet, from the file `path`.
pub open spec fn declared_only(path: Seq<char>, name: Spanned<IdentToken>) -> BuildState {
    BuildState { declared: Some((path, name)), version: None, error: None, tag: None, imports: Seq::empty(), keys: Seq::empty(), values: Seq::empty() }
}

/// Whether a namespace of the name `n` was written out already.
pub open spec fn written_before(w: Seq<(Seq<char>, RefContextV, BuildState)>, n: Seq<char>) -> bool {
    exists|i: int| 0 <= i < w.len() && (#[trigger] w[i]).0 == n
}

/// The root file's items, in order, under the package context `root`: one
/// namespace declaration, uses, and namespaces written out, each built
/// from its items; anything else is refused.
pub open spec fn lib_fold(root: RefContextV, s: LibState, nodes: Seq<Spanned<Item>>, path: Seq<char>, text: Seq<char>) -> (LibState, Option<SchemaIssue>)
    decreases nodes.len(),
{
    if nodes.len() == 0 {
        (s, None)
    } else {
        let prev = lib_fold(root, s, nodes.drop_last(), path, text);
        if prev.1 is Some {
            prev
        } else {
            let t = prev.0;
            let node = nodes.last();
            match node.value {
                Item::Namespace(d) => if t.namespace is Some {
                    (t, Some(SchemaIssue::NamespaceConflict(node.span.spec_raw())))
                } else {
                    (LibState { namespace: Some(d.name), uses: t.uses, written: t.written }, None)
                },
                Item::Use(u) => (LibState { namespace: t.namespace, uses: t.uses.push((u.root.value.0@, node.span.spec_raw())), written: t.written }, None),
                Item::SpannedNamespace(inner) => {
                    let ctx = RefContextV { package: root.package, namespace: root.namespace.push(inner.name.value.0@) };
                    let m = merge_outcome(ctx, declared_only(path, inner.name), inner.ast, path, text);
                    match m.1 {
                        Some(i) => (t, Some(SchemaIssue::Namespace(i))),
                        None => if written_before(t.written, inner.name.value.0@) {
                            (t, Some(SchemaIssue::Duplicate(inner.name.value.0@, inner.name.span.spec_raw())))
                        } else {
                            (LibState { namespace: t.namespace, uses: t.uses, written: t.written.push((inner.name.value.0@, ctx, m.0)) }, None)
                        },
                    }
                },
                _ => (t, Some(SchemaIssue::InvalidItem(node.span.spec_raw()))),
            }
        }
    }
}

/// The checks of the root file as a whole: its metadata lines, then its
/// items.
pub open spec fn lib_outcome(root: RefContextV, ast: AstStream, path: Seq<char>, text: Seq<char>) -> (LibAttrs, LibState, Option<SchemaIssue>) {
    let m = lib_meta_fold((false, None, false), ast.module_meta@, path);
    let s0 = LibState { namespace: None, uses: Seq::empty(), written: Seq::empty() };
    if m.1 is Some {
        (m.0, s0, m.1)
    } else {
        let n = lib_fold(root, s0, ast.nodes@, path, text);
        (m.0, n.0, n.1)
    }
}

/// The plan holds what the checks found.
pub open spec fn plan_holds(p: LibPlan, a: LibAttrs, s: LibState) -> bool {
    &&& p.namespace == s.namespace
    &&& p.error == a.1
    &&& p.uses@.map_values(|u: (String, RawSpan)| (u.0@, u.1)) == s.uses
    &&& p.namespaces@.len() == s.written.len()
    &&& forall|i: int| 0 <= i < p.namespaces@.len() ==> {
        &&& (#[trigger] p.namespaces@[i]).0@ == s.written[i].0
        &&& p.namespaces@[i].1.ctx@ == s.written[i].1
        &&& holds(p.namespaces@[i].1, s.written[i].2)
    }
}


proof fn lemma_lib_meta_stops(a: LibAttrs, ms: Seq<Spanned<ItemMeta>>, path: Seq<char>, n: int)
    requires
        0 <= n <= ms.len(),
        lib_meta_fold(a, ms.subrange(0, n), path).1 is Some,
    ensures
        lib_meta_fold(a, ms, path) == lib_meta_fold(a, ms.subrange(0, n), path),
    decreases ms.len() - n,
{
    if n < ms.len() {
        assert(ms.subrange(0, n + 1).drop_last() =~= ms.subrange(0, n));
        lemma_lib_meta_stops(a, ms, path, n + 1);
    } else {
        assert(ms.subrange(0, n) =~= ms);
    }
}

proof fn lemma_lib_fold_stops(root: RefContextV, s: LibState, nodes: Seq<Spanned<Item>>, path: Seq<char>, text: Seq<char>, n: int)
    requires
        0 <= n <= nodes.len(),
        lib_fold(root, s, nodes.subrange(0, n), path, text).1 is Some,
    ensures
        lib_fold(root, s, nodes, path, text) == lib_fold(root, s, nodes.subrange(0, n), path, text),
    decreases nodes.len() - n,
{
    if n < nodes.len() {
        assert(nodes.subrange(0, n + 1).drop_last() =~= nodes.subrange(0, n));
        lemma_lib_fold_stops(root, s, nodes, path, text, n + 1);
    } else {
        assert(nodes.subrange(0, n) =~= nodes);
    }
}

/// Checks the metadata lines of the root file `path`: a second version or
/// a second error type is refused; the error attribute is kept.
fn check_lib_meta(metas: Vec<Spanned<ItemMeta>>, path: &String) -> (r: Result<LibAttrs, SchemaError>)
    ensures
        match lib_meta_fold((false, None, false), metas@, path@) {
            (a, Some(i)) => r matches Err(e) && e@ == i,
            (a, None) => r == Ok::<LibAttrs, SchemaError>(a),
        },
{
    let ghost m0 = metas@;
    let n: usize = metas.len();
    let mut ms = metas;
    let mut found_version = false;
    let mut found_error: Option<ErrorMeta> = None;
    let mut found_tag = false;
    let mut k: usize = 0;
    while ms.len() > 0
        invariant
            k <= n,
            n == m0.len(),
            m0 == metas@,
            ms@ == m0.subrange(k as int, n as int),
            lib_meta_fold((false, None, false), m0.subrange(0, k as int), path@) == ((found_version, found_error, found_tag), None::<SchemaIssue>),
        decreases ms.len(),
    {
        let m = ms.remove(0);
        let ghost q = m0.subrange(0, k + 1);
        proof {
            assert(q.drop_last() =~= m0.subrange(0, k as int));
            assert(q.last() == m);
        }
        match m.value {
            ItemMeta::Version(vm) => {
                if found_version {
                    let r = SchemaError::DuplicateAttribute { attribute: String::from_str("version"), path: path.clone(), span: vm.span.span() };
                    proof {
                        assert(q.last().value == ItemMeta::Version(vm));
                        assert(lib_meta_fold((false, None, false), q, path@).1 == Some(r@));
                        lemma_lib_meta_stops((false, None, false), m0, path@, k + 1);
                    }
                    return Err(r);
                }
                found_version = true;
            },
            ItemMeta::Error(em) => {
                if found_error.is_some() {
                    let r = SchemaError::DuplicateAttribute { attribute: String::from_str("error"), path: path.clone(), span: em.span.span() };
                    proof {
                        assert(q.last().value == ItemMeta::Error(em));
                        assert(lib_meta_fold((false, None, false), q, path@).1 == Some(r@));
                        lemma_lib_meta_stops((false, None, false), m0, path@, k + 1);
                    }
                    return Err(r);
                }
                found_error = Some(em);
            },
            ItemMeta::Tag(tm) => {
                if found_tag {
                    let r = SchemaError::DuplicateAttribute { attribute: String::from_str("tag"), path: path.clone(), span: tm.span.span() };
                    proof {
                        assert(q.last().value == ItemMeta::Tag(tm));
                        assert(lib_meta_fold((false, None, false), q, path@).1 == Some(r@));
                        lemma_lib_meta_stops((false, None, false), m0, path@, k + 1);
                    }
                    return Err(r);
                }
                found_tag = true;
            },
        }
        k += 1;
    }
    assert(m0.subrange(0, n as int) =~= m0);
    Ok((found_version, found_error, found_tag))
}

/// Whether a namespace of the name `name` was written out already.
fn find_written(written: &Vec<(String, NamespaceCtx)>, name: &String) -> (r: bool)
    ensures
        r == exists|i: int| 0 <= i < written@.len() && (#[trigger] written@[i]).0@ == name@,
{
    let mut i: usize = 0;
    while i < written.len()
        invariant
            i <= written@.len(),
            forall|j: int| 0 <= j < i ==> (#[trigger] written@[j]).0@ != name@,
        decreases written@.len() - i,
    {
        if str_eq(&written[i].0, name) {
            return true;
        }
        i += 1;
    }
    false
}

/// Checks the root file `ast` of a package, read from `path` with the text
/// `source`, under the package context `root`: no attribute given twice, one namespace
/// declaration, and besides it only uses and namespaces written out, each
/// of those built from its items and of a name of its own. The first issue
/// in the file is reported.
pub fn check_lib_module(root: &RefContext, ast: AstStream, path: &String, source: &String) -> (r: Result<LibPlan, SchemaError>)
    ensures
        match lib_outcome(root@, ast, path@, source@) {
            (a, s, Some(i)) => r matches Err(e) && e@ == i,
            (a, s, None) => r matches Ok(p) && plan_holds(p, a, s)
                && forall|i: int| 0 <= i < p.namespaces@.len() ==> (#[trigger] p.namespaces@[i]).1.sources.spec_get(path@) == Some(*source),
        },
{
    let ghost a = ast;
    let AstStream { module_comments: _, module_meta, nodes } = ast;
    let attrs = match check_lib_meta(module_meta, path) {
        Ok(a) => a,
        Err(e) => return Err(e),
    };
    let ghost s0 = LibState { namespace: None, uses: Seq::empty(), written: Seq::empty() };
    let ghost n0 = nodes@;
    let n: usize = nodes.len();
    let mut items = nodes;
    let mut plan = LibPlan { namespace: None, error: None, uses: Vec::new(), namespaces: Vec::new() };
    let ghost mut cur = s0;
    let mut k: usize = 0;
    proof {
        assert(plan.uses@.map_values(|u: (String, RawSpan)| (u.0@, u.1)) =~= Seq::<(Seq<char>, RawSpan)>::empty());
    }
    while items.len() > 0
        invariant
            k <= n,
            n == n0.len(),
            n0 == a.nodes@,
            a == ast,
            lib_meta_fold((false, None, false), a.module_meta@, path@) == (attrs, None::<SchemaIssue>),
            s0 == (LibState { namespace: None, uses: Seq::empty(), written: Seq::empty() }),
            items@ == n0.subrange(k as int, n as int),
            lib_fold(root@, s0, n0.subrange(0, k as int), path@, source@) == (cur, None::<SchemaIssue>),
            plan_holds(plan, (attrs.0, None, attrs.2), cur),
            forall|i: int| 0 <= i < plan.namespaces@.len() ==> (#[trigger] plan.namespaces@[i]).1.sources.spec_get(path@) == Some(*source),
        decreases items.len(),
    {
        let item = items.remove(0);
        let ghost q = n0.subrange(0, k + 1);
        proof {
            assert(q.drop_last() =~= n0.subrange(0, k as int));
            assert(q.last() == item);
        }
        let ghost next = lib_fold(root@, s0, q, path@, source@);
        let item_span = item.span.span();
        match item.value {
            Item::Namespace(d) => {
                if plan.namespace.is_some() {
                    let r = SchemaError::NamespaceConflict { span: item_span };
                    proof {
                        assert(q.last().value == Item::Namespace(d));
                        assert(next.1 == Some(r@));
                    }
                    proof { lemma_lib_fold_stops(root@, s0, n0, path@, source@, k + 1); }
                    return Err(r);
                }
                plan.namespace = Some(d.name);
            },
            Item::Use(u) => {
                let ghost before = plan.uses@;
                plan.uses.push((u.root.value.0, item_span));
                proof {
                    assert(plan.uses@.map_values(|u: (String, RawSpan)| (u.0@, u.1))
                        =~= before.map_values(|u: (String, RawSpan)| (u.0@, u.1)).push((q.last().value->Use_0.root.value.0@, item_span)));
                }
            },
            Item::SpannedNamespace(inner) => {
                let name = inner.name;
                let ctx = root.enter(name.value.0.as_str());
                let declared_name = dup_ident(&name);
                assert(declared_name == name);
                let mut ns = NamespaceCtx::from_empty(&ctx, FromNamedSource { source: path.clone(), value: declared_name });
                let ghost ns0 = ns;
                let ghost built = merge_outcome(ctx@, declared_only(path@, name), inner.ast, path@, source@);
                proof {
                    assert(q.last().value == Item::SpannedNamespace(inner));
                    assert(state_of(ns0) == declared_only(path@, name));
                    assert(ctx@ == (RefContextV { package: root@.package, namespace: root@.namespace.push(name.value.0@) }));
                }
                if let Err(e) = merge_ast_stream(&mut ns, inner.ast, path, source) {
                    let r = SchemaError::Namespace(e);
                    proof {
                        assert(next.1 == Some(r@));
                    }
                    proof { lemma_lib_fold_stops(root@, s0, n0, path@, source@, k + 1); }
                    return Err(r);
                }
                proof {
                    assert(built.1 is None);
                    assert(holds(ns, built.0));
                }
                if find_written(&plan.namespaces, &name.value.0) {
                    let r = SchemaError::Duplicate { name: name.value.0.clone(), span: name.span.span() };
                    proof {
                        let w = choose|i: int| 0 <= i < plan.namespaces@.len() && (#[trigger] plan.namespaces@[i]).0@ == name.value.0@;
                        assert(cur.written[w].0 == name.value.0@);
                        assert(written_before(cur.written, name.value.0@));
                        assert(next.1 == Some(r@));
                    }
                    proof { lemma_lib_fold_stops(root@, s0, n0, path@, source@, k + 1); }
                    return Err(r);
                }
                proof {
                    assert forall|i: int| 0 <= i < cur.written.len() implies (#[trigger] cur.written[i]).0 != name.value.0@ by {
                        assert(plan.namespaces@[i].0@ == cur.written[i].0);
                    }
                    assert(!written_before(cur.written, name.value.0@));
                    assert(next.1 is None);
                    assert(next.0.written == cur.written.push((name.value.0@, ctx@, built.0)));
                }
                let ghost before = plan.namespaces@;
                plan.namespaces.push((name.value.0, ns));
                proof {
                    assert forall|i: int| 0 <= i < plan.namespaces@.len() implies {
                        &&& (#[trigger] plan.namespaces@[i]).0@ == next.0.written[i].0
                        &&& plan.namespaces@[i].1.ctx@ == next.0.written[i].1
                        &&& holds(plan.namespaces@[i].1, next.0.written[i].2)
                    } by {
                        if i < before.len() {
                            assert(plan.namespaces@[i] == before[i]);
                        }
                    }
                }
            },
            _ => {
                let r = SchemaError::InvalidItem { span: item_span };
                proof {
                    assert(next.1 == Some(r@));
                }
                proof { lemma_lib_fold_stops(root@, s0, n0, path@, source@, k + 1); }
                return Err(r);
            },
        }
        proof { cur = next.0; }
        k += 1;
    }
    assert(n0.subrange(0, n as int) =~= n0);
    plan.error = attrs.1;
    Ok(plan)
}

/// Checks that the namespace loaded for `use name;` declares that name.
pub fn check_use_namespace(use_name: &String, use_span: RawSpan, ns: &NamespaceCtx) -> (r: Result<(), SchemaError>)
    ensures
        r is Ok <==> ns.namespace.value.value.0@ == use_name@,
        r matches Err(e) ==> e@ == SchemaIssue::Mismatch(use_name@, ns.namespace.value.value.0@, use_span),
{
    if str_eq(&ns.namespace.value.value.0, use_name) {
        Ok(())
    } else {
        Err(SchemaError::Mismatch { expected: use_name.clone(), found: ns.namespace.value.value.0.clone(), span: use_span })
    }
}

/// Whether some item of one of the namespaces is an error type of the name
/// `name`.
pub open spec fn error_defined(name: Seq<char>, namespaces: Seq<(String, NamespaceCtx)>) -> bool {
    exists|i: int, j: int| 0 <= i < namespaces.len() && 0 <= j < namespaces[i].1.children@.len()
        && (#[trigger] namespaces[i].1.children@[j]).0.name.value.0@ == name
        && namespaces[i].1.children@[j].1.value is Error
}

/// Checks that the root file's error attribute names an error type of one
/// of the namespaces.
pub fn check_lib_error(err: &ErrorMeta, namespaces: &Vec<(String, NamespaceCtx)>) -> (r: Result<(), SchemaError>)
    ensures
        r is Ok <==> error_defined(reference_text(err.value.value.value@), namespaces@),
        r matches Err(e) ==> e@ == SchemaIssue::InvalidErrorAttr(
            "'"@ + reference_text(err.value.value.value@) + "' is not a defined error type"@, err.span.spec_raw()),
{
    let error_name = err.value.value.value.display();
    let mut i: usize = 0;
    while i < namespaces.len()
        invariant
            i <= namespaces@.len(),
            error_name@ == reference_text(err.value.value.value@),
            forall|x: int, y: int| 0 <= x < i && 0 <= y < namespaces@[x].1.children@.len() ==>
                !((#[trigger] namespaces@[x].1.children@[y]).0.name.value.0@ == error_name@ && namespaces@[x].1.children@[y].1.value is Error),
        decreases namespaces@.len() - i,
    {
        let ch = &namespaces[i].1.children;
        let mut j: usize = 0;
        while j < ch.len()
            invariant
                i < namespaces@.len(),
                j <= ch@.len(),
                error_name@ == reference_text(err.value.value.value@),
                forall|x: int, y: int| 0 <= x < i && 0 <= y < namespaces@[x].1.children@.len() ==>
                    !((#[trigger] namespaces@[x].1.children@[y]).0.name.value.0@ == error_name@ && namespaces@[x].1.children@[y].1.value is Error),
                ch@ == namespaces@[i as int].1.children@,
                forall|y: int| 0 <= y < j ==> !((#[trigger] ch@[y]).0.name.value.0@ == error_name@ && ch@[y].1.value is Error),
            decreases ch@.len() - j,
        {
            let is_error = match &ch[j].1.value {
                NamespaceChild::Error(_) => true,
                _ => false,
            };
            if is_error && str_eq(&ch[j].0.name.value.0, &error_name) {
                assert(namespaces@[i as int].1.children@[j as int] == ch@[j as int]);
                assert(error_defined(reference_text(err.value.value.value@), namespaces@));
                return Ok(());
            }
            j += 1;
        }
        i += 1;
    }
    let mut message = String::from_str("'");
    crate::text::append_string(&mut message, &error_name);
    crate::text::append_string(&mut message, &String::from_str("' is not a defined error type"));
    Err(SchemaError::InvalidErrorAttr { message, span: err.span.span() })
}

} // verus!
