//! The versions and error types of a namespace's items, from their
//! metadata lines and the namespace's own.
use vstd::prelude::*;
use crate::defs::{RawSpan, Span, Spanned};
use crate::ast::{ItemMeta, Type, TypeV, VersionMeta, ErrorMeta, reference_text};
use crate::common::{NamespaceChild, NamespaceCtx};
use crate::extract::{Children, ImportV, imports_view};
use crate::ordmap::StrMap;
use crate::paths::RefOrItemContext;
use crate::text::{append_string, str_eq};

verus! {

/// What is wrong with an item's metadata, as values.
pub enum MetaIssue {
    /// Several versions on one item: the versions, and where the second is.
    VersionConflict(Seq<usize>, RawSpan),
    /// The namespace's error attribute names no error type.
    InvalidErrorAttr(Seq<char>, RawSpan),
    /// A fallible operation with no error type: its name and where it is.
    MissingErrorType(Seq<char>, RawSpan),
}

/// Why metadata is refused.
#[derive(Debug)]
pub enum MetadataError {
    VersionConflict { versions: Vec<usize>, span: RawSpan },
    InvalidErrorAttr { message: String, span: RawSpan },
    MissingErrorType { operation: String, span: RawSpan },
}

impl View for MetadataError {
    type V = MetaIssue;

    open spec fn view(&self) -> MetaIssue {
        match self {
            MetadataError::VersionConflict { versions, span } => MetaIssue::VersionConflict(versions@, *span),
            MetadataError::InvalidErrorAttr { message, span } => MetaIssue::InvalidErrorAttr(message@, *span),
            MetadataError::MissingErrorType { operation, span } => MetaIssue::MissingErrorType(operation@, *span),
        }
    }
}

/// The version a `#[version(n)]` line gives, with the line's span.
pub open spec fn meta_version(vm: VersionMeta) -> Spanned<u32> {
    Spanned { span: Span::Known(vm.span.spec_raw()), value: vm.value.value.value as u32 }
}

/// The versions of an item's metadata lines, in order.
pub open spec fn item_versions(meta: Seq<Spanned<ItemMeta>>) -> Seq<Spanned<u32>>
    decreases meta.len(),
{
    if meta.len() == 0 {
        Seq::empty()
    } else {
        let rest = item_versions(meta.drop_last());
        match meta.last().value {
            ItemMeta::Version(vm) => rest.push(meta_version(vm)),
            _ => rest,
        }
    }
}

/// The issue of an item with several versions: all of them, and the span
/// of the second.
pub open spec fn conflict_issue(meta: Seq<Spanned<ItemMeta>>) -> MetaIssue {
    let vs = item_versions(meta);
    MetaIssue::VersionConflict(vs.map_values(|v: Spanned<u32>| v.value as usize), vs[1].span.spec_raw())
}

/// The metadata lines of an item; a nested namespace has none of its own.
pub open spec fn child_meta(c: NamespaceChild) -> Option<Seq<Spanned<ItemMeta>>> {
    match c {
        NamespaceChild::Struct(d) => Some(d.meta@),
        NamespaceChild::Enum(d) => Some(d.meta@),
        NamespaceChild::OneOf(d) => Some(d.meta@),
        NamespaceChild::Type(d) => Some(d.meta@),
        NamespaceChild::Error(d) => Some(d.meta@),
        NamespaceChild::Operation(d) => Some(d.meta@),
        NamespaceChild::Namespace(_) => None,
    }
}

/// The namespace's version, if it has one.
pub open spec fn namespace_version(ns: NamespaceCtx) -> Option<Spanned<u32>> {
    match ns.version {
        Some(v) => Some(meta_version(v.value)),
        None => None,
    }
}

/// The version of an item: its own, else the namespace's, else 1.
pub open spec fn item_version(meta: Seq<Spanned<ItemMeta>>, nsv: Option<Spanned<u32>>) -> Spanned<u32> {
    let vs = item_versions(meta);
    if vs.len() > 0 {
        vs[0]
    } else {
        match nsv {
            Some(v) => v,
            None => Spanned { span: Span::CallSite, value: 1 },
        }
    }
}

/// The first of the first `n` items with more than one version.
pub open spec fn first_conflict(ch: Children, n: int) -> Option<int>
    decreases n,
{
    if n <= 0 {
        None
    } else {
        match first_conflict(ch, n - 1) {
            Some(c) => Some(c),
            None => match child_meta(ch[n - 1].1.value) {
                Some(meta) => if item_versions(meta).len() > 1 { Some(n - 1) } else { None },
                None => None,
            },
        }
    }
}

/// The version recorded under `k` after the first `n` items: that of the
/// last of them named `k`, else what `m0` had.
pub open spec fn version_at(m0: StrMap<Spanned<u32>>, ch: Children, n: int, nsv: Option<Spanned<u32>>, k: Seq<char>) -> Option<Spanned<u32>>
    decreases n,
{
    if n <= 0 {
        m0.spec_get(k)
    } else {
        match child_meta(ch[n - 1].1.value) {
            Some(meta) => if ch[n - 1].0.name.value.0@ == k {
                Some(item_version(meta, nsv))
            } else {
                version_at(m0, ch, n - 1, nsv, k)
            },
            None => version_at(m0, ch, n - 1, nsv, k),
        }
    }
}

fn version_of(vm: &VersionMeta) -> (r: Spanned<u32>)
    ensures
        r == meta_version(*vm),
{
    let span = vm.span();
    Spanned::new(span.start, span.end, vm.value.value.value as u32)
}

/// The version of an item's metadata, if any; two or more are refused, with
/// the span of the second.
pub fn extract_version_from_meta_validated(meta: &Vec<Spanned<ItemMeta>>) -> (r: Result<Option<Spanned<u32>>, MetadataError>)
    ensures
        item_versions(meta@).len() > 1 ==> (r matches Err(e) && e@ == conflict_issue(meta@)),
        item_versions(meta@).len() <= 1 ==> (r matches Ok(o)
            && o == (if item_versions(meta@).len() == 1 { Some(item_versions(meta@)[0]) } else { None })),
{
    let mut versions: Vec<Spanned<u32>> = Vec::new();
    let mut k: usize = 0;
    while k < meta.len()
        invariant
            k <= meta@.len(),
            versions@ == item_versions(meta@.subrange(0, k as int)),
        decreases meta@.len() - k,
    {
        proof {
            assert(meta@.subrange(0, k + 1).drop_last() =~= meta@.subrange(0, k as int));
        }
        match &meta[k].value {
            ItemMeta::Version(vm) => {
                versions.push(version_of(vm));
            },
            _ => {},
        }
        k += 1;
    }
    assert(meta@.subrange(0, meta@.len() as int) =~= meta@);
    if versions.len() > 1 {
        let mut values: Vec<usize> = Vec::new();
        let mut j: usize = 0;
        while j < versions.len()
            invariant
                j <= versions@.len(),
                values@.len() == j,
                forall|x: int| 0 <= x < j ==> #[trigger] values@[x] == versions@[x].value as usize,
            decreases versions@.len() - j,
        {
            values.push(versions[j].value as usize);
            j += 1;
        }
        let span = versions[1].span.span();
        let e = MetadataError::VersionConflict { versions: values, span };
        proof {
            let vs = item_versions(meta@);
            assert(values@ =~= vs.map_values(|v: Spanned<u32>| v.value as usize));
        }
        Err(e)
    } else if versions.len() == 1 {
        Ok(Some(copy_version(&versions[0])))
    } else {
        Ok(None)
    }
}

/// The version of an item with none of its own, in a namespace with none.
pub fn default_version() -> (r: Spanned<u32>)
    ensures
        r == (Spanned { span: Span::CallSite, value: 1u32 }),
{
    Spanned::call_site(1)
}

fn copy_version(v: &Spanned<u32>) -> (r: Spanned<u32>)
    ensures
        r == *v,
{
    Spanned { span: v.span, value: v.value }
}

/// What recording the versions of `ns` makes of the map `before`: the map
/// `after` and the result `r`.
pub open spec fn versions_outcome(ns: NamespaceCtx, before: StrMap<Spanned<u32>>, after: StrMap<Spanned<u32>>, r: Result<(), MetadataError>) -> bool {
    &&& after.wf()
    &&& match first_conflict(ns.children@, ns.children@.len() as int) {
        Some(c) => {
            &&& r matches Err(e) && child_meta(ns.children@[c].1.value) matches Some(meta) && e@ == conflict_issue(meta)
            &&& forall|k: Seq<char>| #[trigger] after.spec_get(k) == version_at(before, ns.children@, c, namespace_version(ns), k)
        },
        None => {
            &&& r is Ok
            &&& forall|k: Seq<char>| #[trigger] after.spec_get(k)
                == version_at(before, ns.children@, ns.children@.len() as int, namespace_version(ns), k)
        },
    }
}

/// Records the version of every item of the namespace under its name: its
/// own, else the namespace's, else 1. The first item with two versions is
/// refused; the items before it are recorded.
pub fn resolve_versions(ns: &NamespaceCtx, versions: &mut StrMap<Spanned<u32>>) -> (r: Result<(), MetadataError>)
    requires
        old(versions).wf(),
    ensures
        versions_outcome(*ns, *old(versions), *final(versions), r),
{
    let ghost ch = ns.children@;
    let ghost m0 = *versions;
    let ghost nsv = namespace_version(*ns);
    let namespace_ver: Option<Spanned<u32>> = match &ns.version {
        Some(v) => Some(version_of(&v.value)),
        None => None,
    };
    let mut i: usize = 0;
    while i < ns.children.len()
        invariant
            i <= ch.len(),
            ch == ns.children@,
            nsv == namespace_version(*ns),
            namespace_ver == nsv,
            m0 == *old(versions),
            versions.wf(),
            first_conflict(ch, i as int) is None,
            forall|k: Seq<char>| #[trigger] versions.spec_get(k) == version_at(m0, ch, i as int, nsv, k),
        decreases ch.len() - i,
    {
        let child = &ns.children[i];
        let meta = match &child.1.value {
            NamespaceChild::Struct(d) => &d.meta,
            NamespaceChild::Enum(d) => &d.meta,
            NamespaceChild::OneOf(d) => &d.meta,
            NamespaceChild::Type(d) => &d.meta,
            NamespaceChild::Error(d) => &d.meta,
            NamespaceChild::Operation(d) => &d.meta,
            NamespaceChild::Namespace(_) => {
                proof {
                    assert forall|k: Seq<char>| #[trigger] versions.spec_get(k) == version_at(m0, ch, i + 1, nsv, k) by {}
                }
                i += 1;
                continue;
            },
        };
        assert(child_meta(ch[i as int].1.value) == Some(meta@));
        let own = match extract_version_from_meta_validated(meta) {
            Ok(v) => v,
            Err(e) => {
                proof {
                    assert(first_conflict(ch, i + 1) == Some(i as int));
                    lemma_first_conflict_extend(ch, i + 1, ch.len() as int);
                }
                return Err(e);
            },
        };
        let resolved = match own {
            Some(v) => v,
            None => match &namespace_ver {
                Some(v) => copy_version(v),
                None => default_version(),
            },
        };
        assert(resolved == item_version(meta@, nsv));
        versions.insert(child.0.name.value.0.clone(), resolved);
        proof {
            assert forall|k: Seq<char>| #[trigger] versions.spec_get(k) == version_at(m0, ch, i + 1, nsv, k) by {}
        }
        i += 1;
    }
    Ok(())
}

proof fn lemma_first_conflict_extend(ch: Children, n: int, m: int)
    requires
        0 <= n <= m,
        first_conflict(ch, n) is Some,
    ensures
        first_conflict(ch, m) == first_conflict(ch, n),
    decreases m - n,
{
    if m > n {
        lemma_first_conflict_extend(ch, n, m - 1);
    }
}

/// A return type that may fail: a result, perhaps in parentheses.
pub open spec fn is_fallible(t: TypeV) -> bool
    decreases t,
{
    match t {
        TypeV::Result(_) => true,
        TypeV::Paren(inner) => is_fallible(*inner),
        _ => false,
    }
}

/// Whether an operation returning `return_type` may fail.
pub fn is_fallible_operation(return_type: &Type) -> (r: bool)
    ensures
        r == is_fallible(return_type@),
    decreases return_type,
{
    match return_type {
        Type::Result { .. } => true,
        Type::Paren { ty } => {
            proof {
                assert(decreases_to!(*return_type => (*return_type)->Paren_ty));
                assert(decreases_to!((*return_type)->Paren_ty => (*return_type)->Paren_ty.value));
            }
            is_fallible_operation(&ty.value)
        },
        _ => false,
    }
}

/// The error type an `#[err(..)]` line names, as written, with the line's
/// span.
pub open spec fn meta_error(em: ErrorMeta) -> (Span, Seq<char>) {
    (Span::Known(em.span.spec_raw()), reference_text(em.value.value.value@))
}

/// The first error type among an item's metadata lines.
pub open spec fn first_meta_error(meta: Seq<Spanned<ItemMeta>>) -> Option<(Span, Seq<char>)>
    decreases meta.len(),
{
    if meta.len() == 0 {
        None
    } else {
        match first_meta_error(meta.drop_last()) {
            Some(x) => Some(x),
            None => match meta.last().value {
                ItemMeta::Error(em) => Some(meta_error(em)),
                _ => None,
            },
        }
    }
}

proof fn lemma_first_meta_error_extend(meta: Seq<Spanned<ItemMeta>>, n: int)
    requires
        0 <= n <= meta.len(),
        first_meta_error(meta.subrange(0, n)) is Some,
    ensures
        first_meta_error(meta) == first_meta_error(meta.subrange(0, n)),
    decreases meta.len() - n,
{
    if n == meta.len() {
        assert(meta.subrange(0, n) =~= meta);
    } else {
        assert(meta.subrange(0, n + 1).drop_last() =~= meta.subrange(0, n));
        lemma_first_meta_error_extend(meta, n + 1);
    }
}

/// The error type an item's metadata names, if any: the first.
pub fn extract_error_from_meta(meta: &Vec<Spanned<ItemMeta>>) -> (r: Option<Spanned<String>>)
    ensures
        match first_meta_error(meta@) {
            Some(x) => r matches Some(s) && (s.span, s.value@) == x,
            None => r is None,
        },
{
    let mut k: usize = 0;
    while k < meta.len()
        invariant
            k <= meta@.len(),
            first_meta_error(meta@.subrange(0, k as int)) is None,
        decreases meta@.len() - k,
    {
        proof {
            assert(meta@.subrange(0, k + 1).drop_last() =~= meta@.subrange(0, k as int));
        }
        match &meta[k].value {
            ItemMeta::Error(em) => {
                let name = em.value.value.value.display();
                let span = em.span();
                proof {
                    lemma_first_meta_error_extend(meta@, k + 1);
                }
                return Some(Spanned::new(span.start, span.end, name));
            },
            _ => {},
        }
        k += 1;
    }
    assert(meta@.subrange(0, meta@.len() as int) =~= meta@);
    None
}

/// The first of the first `n` items named `name`.
pub open spec fn first_named(ch: Children, name: Seq<char>, n: int) -> Option<int>
    decreases n,
{
    if n <= 0 {
        None
    } else {
        match first_named(ch, name, n - 1) {
            Some(j) => Some(j),
            None => if ch[n - 1].0.name.value.0@ == name { Some(n - 1) } else { None },
        }
    }
}

proof fn lemma_first_named_extend(ch: Children, name: Seq<char>, n: int, m: int)
    requires
        0 <= n <= m,
        first_named(ch, name, n) is Some,
    ensures
        first_named(ch, name, m) == first_named(ch, name, n),
    decreases m - n,
{
    if m > n {
        lemma_first_named_extend(ch, name, n, m - 1);
    }
}

/// An import that brings `name` in: a namespace whose last segment it is,
/// or an item of that name.
pub open spec fn import_brings(i: ImportV, name: Seq<char>) -> bool {
    match i {
        ImportV::Ref(r) => r.namespace.len() > 0 && r.namespace.last() == name,
        ImportV::Item(it) => it.name == name,
    }
}

/// `name` is an error type: the first item of that name is an error, or,
/// with no item of that name, an import brings it in.
pub open spec fn error_exists(name: Seq<char>, ch: Children, imports: Seq<ImportV>) -> bool {
    match first_named(ch, name, ch.len() as int) {
        Some(j) => ch[j].1.value is Error,
        None => exists|i: int| 0 <= i < imports.len() && #[trigger] import_brings(imports[i], name),
    }
}

/// Whether `name` is a defined error type of the namespace.
pub fn error_type_exists(name: &String, ns: &NamespaceCtx) -> (r: bool)
    ensures
        r == error_exists(name@, ns.children@, imports_view(ns.imports@)),
{
    let ghost ch = ns.children@;
    let mut i: usize = 0;
    while i < ns.children.len()
        invariant
            i <= ch.len(),
            ch == ns.children@,
            first_named(ch, name@, i as int) is None,
        decreases ch.len() - i,
    {
        if str_eq(&ns.children[i].0.name.value.0, name) {
            proof {
                assert(first_named(ch, name@, i + 1) == Some(i as int));
                lemma_first_named_extend(ch, name@, i + 1, ch.len() as int);
            }
            return match &ns.children[i].1.value {
                NamespaceChild::Error(_) => true,
                _ => false,
            };
        }
        i += 1;
    }
    let ghost iv = imports_view(ns.imports@);
    let mut j: usize = 0;
    while j < ns.imports.len()
        invariant
            j <= ns.imports@.len(),
            iv == imports_view(ns.imports@),
            iv.len() == ns.imports@.len(),
            first_named(ch, name@, ch.len() as int) is None,
            ch == ns.children@,
            forall|x: int| 0 <= x < j ==> !#[trigger] import_brings(iv[x], name@),
        decreases ns.imports@.len() - j,
    {
        let found = match &ns.imports[j].value {
            RefOrItemContext::Ref(r) => {
                let n = r.namespace.len();
                n > 0 && str_eq(&r.namespace[n - 1], name)
            },
            RefOrItemContext::Item(it) => str_eq(&it.name.value.0, name),
        };
        assert(found == import_brings(iv[j as int], name@));
        if found {
            return true;
        }
        j += 1;
    }
    false
}

/// The namespace's error type, as written, with its line's span.
pub open spec fn namespace_error(ns: NamespaceCtx) -> Option<(Span, Seq<char>)> {
    match ns.error {
        Some(e) => Some(meta_error(e.value)),
        None => None,
    }
}

/// The error type of a fallible operation: its own, else the namespace's.
pub open spec fn op_error(meta: Seq<Spanned<ItemMeta>>, nse: Option<(Span, Seq<char>)>) -> Option<(Span, Seq<char>)> {
    match first_meta_error(meta) {
        Some(x) => Some(x),
        None => nse,
    }
}

/// The metadata of an item that is an operation that may fail.
pub open spec fn fallible_meta(c: NamespaceChild) -> Option<Seq<Spanned<ItemMeta>>> {
    match c {
        NamespaceChild::Operation(d) => if is_fallible(d.def.value.return_type.value@) { Some(d.meta@) } else { None },
        _ => None,
    }
}

/// The first of the first `n` items that is a fallible operation with no
/// error type.
pub open spec fn first_missing(ch: Children, n: int, nse: Option<(Span, Seq<char>)>) -> Option<int>
    decreases n,
{
    if n <= 0 {
        None
    } else {
        match first_missing(ch, n - 1, nse) {
            Some(c) => Some(c),
            None => match fallible_meta(ch[n - 1].1.value) {
                Some(meta) => if op_error(meta, nse) is None { Some(n - 1) } else { None },
                None => None,
            },
        }
    }
}

proof fn lemma_first_missing_extend(ch: Children, n: int, m: int, nse: Option<(Span, Seq<char>)>)
    requires
        0 <= n <= m,
        first_missing(ch, n, nse) is Some,
    ensures
        first_missing(ch, m, nse) == first_missing(ch, n, nse),
    decreases m - n,
{
    if m > n {
        lemma_first_missing_extend(ch, n, m - 1, nse);
    }
}

/// What a map of error types holds under `k`, as values.
pub open spec fn text_at(m: StrMap<Spanned<String>>, k: Seq<char>) -> Option<(Span, Seq<char>)> {
    match m.spec_get(k) {
        Some(s) => Some((s.span, s.value@)),
        None => None,
    }
}

/// The error type recorded under `k` after the first `n` items: that of
/// the last fallible operation named `k`, else what `m0` had.
pub open spec fn error_at(m0: StrMap<Spanned<String>>, ch: Children, n: int, nse: Option<(Span, Seq<char>)>, k: Seq<char>) -> Option<(Span, Seq<char>)>
    decreases n,
{
    if n <= 0 {
        text_at(m0, k)
    } else {
        match fallible_meta(ch[n - 1].1.value) {
            Some(meta) => if ch[n - 1].0.name.value.0@ == k {
                op_error(meta, nse)
            } else {
                error_at(m0, ch, n - 1, nse, k)
            },
            None => error_at(m0, ch, n - 1, nse, k),
        }
    }
}

fn copy_error(e: &Spanned<String>) -> (r: Spanned<String>)
    ensures
        r.span == e.span,
        r.value@ == e.value@,
{
    Spanned { span: e.span, value: e.value.clone() }
}

/// What recording the error types of `ns` makes of the map `before`: the
/// map `after` and the result `r`.
pub open spec fn errors_outcome(ns: NamespaceCtx, before: StrMap<Spanned<String>>, after: StrMap<Spanned<String>>, r: Result<(), MetadataError>) -> bool {
    &&& after.wf()
    &&& (namespace_error(ns) matches Some(x) && !error_exists(x.1, ns.children@, imports_view(ns.imports@))) ==> {
        &&& r matches Err(e) && e@ == MetaIssue::InvalidErrorAttr(
            "'"@ + namespace_error(ns).unwrap().1 + "' is not a defined error type"@,
            namespace_error(ns).unwrap().0.spec_raw())
        &&& after.entries() == before.entries()
    }
    &&& !(namespace_error(ns) matches Some(x) && !error_exists(x.1, ns.children@, imports_view(ns.imports@))) ==> {
        match first_missing(ns.children@, ns.children@.len() as int, namespace_error(ns)) {
            Some(c) => {
                &&& r matches Err(e) && e@ == MetaIssue::MissingErrorType(
                    ns.children@[c].0.name.value.0@, ns.children@[c].0.name.span.spec_raw())
                &&& forall|k: Seq<char>| #[trigger] text_at(after, k)
                    == error_at(before, ns.children@, c, namespace_error(ns), k)
            },
            None => {
                &&& r is Ok
                &&& forall|k: Seq<char>| #[trigger] text_at(after, k)
                    == error_at(before, ns.children@, ns.children@.len() as int, namespace_error(ns), k)
            },
        }
    }
}

/// Records the error type of every fallible operation under its name: its
/// own, else the namespace's. A namespace error type that is not defined
/// is refused first; then the first fallible operation with no error type.
pub fn resolve_error_types(ns: &NamespaceCtx, errors: &mut StrMap<Spanned<String>>) -> (r: Result<(), MetadataError>)
    requires
        old(errors).wf(),
    ensures
        errors_outcome(*ns, *old(errors), *final(errors), r),
{
    let ghost ch = ns.children@;
    let ghost m0 = *errors;
    let ghost nse = namespace_error(*ns);
    let namespace_err: Option<Spanned<String>> = match &ns.error {
        Some(e) => {
            let error_name = e.value.value.value.value.display();
            let span = e.value.span();
            if !error_type_exists(&error_name, ns) {
                let mut message = String::from_str("'");
                append_string(&mut message, &error_name);
                append_string(&mut message, &String::from_str("' is not a defined error type"));
                return Err(MetadataError::InvalidErrorAttr { message, span });
            }
            Some(Spanned::new(span.start, span.end, error_name))
        },
        None => None,
    };
    let mut i: usize = 0;
    while i < ns.children.len()
        invariant
            i <= ch.len(),
            ch == ns.children@,
            nse == namespace_error(*ns),
            !(nse matches Some(x) && !error_exists(x.1, ch, imports_view(ns.imports@))),
            match namespace_err {
                Some(s) => nse == Some((s.span, s.value@)),
                None => nse is None,
            },
            m0 == *old(errors),
            errors.wf(),
            first_missing(ch, i as int, nse) is None,
            forall|k: Seq<char>| #[trigger] text_at(*errors, k) == error_at(m0, ch, i as int, nse, k),
        decreases ch.len() - i,
    {
        let child = &ns.children[i];
        match &child.1.value {
            NamespaceChild::Operation(op_def) => {
                if is_fallible_operation(&op_def.def.value.return_type.value) {
                    assert(fallible_meta(ch[i as int].1.value) == Some(op_def.meta@));
                    let resolved = match extract_error_from_meta(&op_def.meta) {
                        Some(err) => err,
                        None => match &namespace_err {
                            Some(err) => copy_error(err),
                            None => {
                                let raw = child.0.name.span.span();
                                proof {
                                    assert(first_missing(ch, i + 1, nse) == Some(i as int));
                                    lemma_first_missing_extend(ch, i + 1, ch.len() as int, nse);
                                }
                                return Err(MetadataError::MissingErrorType { operation: child.0.name.value.0.clone(), span: raw });
                            },
                        },
                    };
                    assert(Some((resolved.span, resolved.value@)) == op_error(op_def.meta@, nse));
                    let ghost before = *errors;
                    let ghost rv = (resolved.span, resolved.value@);
                    let key = child.0.name.value.0.clone();
                    errors.insert(key, resolved);
                    proof {
                        assert forall|k: Seq<char>| #[trigger] text_at(*errors, k) == error_at(m0, ch, i + 1, nse, k) by {
                            if k != ch[i as int].0.name.value.0@ {
                                assert(errors.spec_get(k) == before.spec_get(k));
                                assert(text_at(before, k) == error_at(m0, ch, i as int, nse, k));
                            } else {
                                assert(text_at(*errors, k) == Some(rv));
                            }
                        }
                    }
                } else {
                    assert(fallible_meta(ch[i as int].1.value) is None);
                }
            },
            _ => {
                assert(fallible_meta(ch[i as int].1.value) is None);
            },
        }
        i += 1;
    }
    Ok(())
}

} // verus!
