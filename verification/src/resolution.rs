//! What resolving a namespace produces, and a type reference with what it
//! resolved to.
use vstd::prelude::*;
use std::sync::Arc;
use crate::defs::Spanned;
use crate::ast::{StructDef, Type};
use crate::common::FromNamedSource;
use crate::helpers::UnionRecord;
use crate::ordmap::StrMap;
use crate::paths::NamedItemContext;
use crate::stream::share;

verus! {

/// The results of the resolution passes over one namespace.
#[derive(Debug)]
pub struct NamespaceResolution {
    pub anonymous_structs: Vec<FromNamedSource<Spanned<StructDef>>>,
    pub identified_unions: Vec<Spanned<UnionRecord>>,
    pub union_structs: Vec<FromNamedSource<Spanned<StructDef>>>,
    pub resolved_aliases: StrMap<Spanned<Type>>,
    pub versions: StrMap<Spanned<u32>>,
    pub errors: StrMap<Spanned<String>>,
}

impl NamespaceResolution {
    /// Nothing resolved yet.
    pub fn new() -> (r: Self)
        ensures
            r.anonymous_structs@.len() == 0,
            r.identified_unions@.len() == 0,
            r.union_structs@.len() == 0,
            r.resolved_aliases.wf() && r.resolved_aliases.entries().len() == 0,
            r.versions.wf() && r.versions.entries().len() == 0,
            r.errors.wf() && r.errors.entries().len() == 0,
    {
        NamespaceResolution {
            anonymous_structs: Vec::new(),
            identified_unions: Vec::new(),
            union_structs: Vec::new(),
            resolved_aliases: StrMap::new(),
            versions: StrMap::new(),
            errors: StrMap::new(),
        }
    }
}

/// A type as written at `path`, and the type it resolved to.
#[derive(Debug)]
pub struct ResolvedTypeRef {
    pub original: Arc<Spanned<Type>>,
    pub resolved: Arc<Spanned<Type>>,
    pub path: NamedItemContext,
}

impl ResolvedTypeRef {
    /// A type that resolves to itself.
    pub fn new(path: NamedItemContext, typ: Arc<Spanned<Type>>) -> (r: Self)
        ensures
            *r.original == *typ,
            *r.resolved == *typ,
            r.path == path,
    {
        let original = share(&typ);
        let resolved = share(&typ);
        ResolvedTypeRef { original, resolved, path }
    }

    pub fn with_resolved(path: NamedItemContext, original: Arc<Spanned<Type>>, resolved: Arc<Spanned<Type>>) -> (r: Self)
        ensures
            r.original == original,
            r.resolved == resolved,
            r.path == path,
    {
        ResolvedTypeRef { path, original, resolved }
    }
}

} // verus!
