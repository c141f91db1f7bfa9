//! What a namespace holds, and values tagged with the file they come from.
use vstd::prelude::*;
use std::sync::Arc;
use crate::defs::{Span, Spanned};
use crate::ordmap::StrMap;
use crate::ast::{CommentStream, TagMeta, Type, EnumDef, ErrorDef, ErrorMeta, OneOfDef, OperationDef, PathOrIdent, StructDef, TypeDef, VersionMeta, type_kind_name};
use crate::ast_ops::{dup_path_or_ident, identical_path_or_ident};
use crate::paths::{NamedItemContext, RefContext, RefOrItemContext};
use crate::toks::IdentToken;

verus! {

/// A value together with the path of the file it was read from.
#[derive(Debug)]
pub struct FromNamedSource<T> {
    pub source: String,
    pub value: T,
}

/// Tags a value with the file it comes from.
pub trait WithSource: Sized {
    fn with_source(self, source: String) -> (r: FromNamedSource<Self>)
        ensures
            r.source == source,
            r.value == self,
    {
        FromNamedSource { source, value: self }
    }

    fn with_source_and_span(self, source: String, span: Span) -> (r: FromNamedSource<Spanned<Self>>)
        ensures
            r.source == source,
            r.value.span == span,
            r.value.value == self,
    {
        FromNamedSource { source, value: Spanned { span, value: self } }
    }
}

impl<T> WithSource for T {}

impl<T> FromNamedSource<Spanned<T>> {
    /// The span of the value.
    pub fn span(&self) -> (r: &Span)
        ensures
            *r == self.value.span,
    {
        &self.value.span
    }

    /// The file the value comes from.
    pub fn source(&self) -> (r: &String)
        ensures
            *r == self.source,
    {
        &self.source
    }

    /// The spanned value, without its file.
    pub fn into_spanned(self) -> (r: Spanned<T>)
        ensures
            r == self.value,
    {
        self.value
    }

    pub fn spanned(&self) -> (r: &Spanned<T>)
        ensures
            *r == self.value,
    {
        &self.value
    }
}

impl<T> Spanned<FromNamedSource<T>> {
    /// Moves the span inside the file tag.
    pub fn into_source_spanned(self) -> (r: FromNamedSource<Spanned<T>>)
        ensures
            r.source == self.value.source,
            r.value.span == self.span,
            r.value.value == self.value.value,
    {
        FromNamedSource { source: self.value.source, value: Spanned { span: self.span, value: self.value.value } }
    }
}

impl FromNamedSource<VersionMeta> {
    /// The version number written.
    pub fn version_value(&self) -> (r: i32)
        ensures
            r == self.value.value.value.value,
    {
        self.value.value.value.value
    }

    /// The version number, as unsigned, with the span of the metadata line.
    pub fn version_spanned(&self) -> (r: Spanned<u32>)
        ensures
            r.value == self.value.value.value.value as u32,
            r.span == Span::Known(self.value.span.spec_raw()),
    {
        let val = self.value.value.value.value;
        let span = self.value.span();
        Spanned::new(span.start, span.end, val as u32)
    }
}

impl FromNamedSource<ErrorMeta> {
    /// The error type named.
    pub fn error_name(&self) -> (r: &PathOrIdent)
        ensures
            *r == self.value.value.value.value,
    {
        &self.value.value.value.value
    }

    /// The error type named, with the span of the metadata line.
    pub fn error_name_spanned(&self) -> (r: Spanned<PathOrIdent>)
        ensures
            r.value@ == self.value.value.value.value@,
            identical_path_or_ident(r.value, self.value.value.value.value),
            r.span == Span::Known(self.value.span.spec_raw()),
    {
        let name = dup_path_or_ident(self.error_name());
        let span = self.value.span();
        Spanned::new(span.start, span.end, name)
    }
}

/// A namespace: its path, the text of each of its files by the file's
/// name, the comments at the top of each file, the name it is declared
/// under, its version, error and tagging attributes, what it imports, and
/// the items declared in it, in the order of their paths.
#[derive(Debug)]
pub struct NamespaceCtx {
    pub ctx: RefContext,
    pub sources: StrMap<String>,
    pub comments: Vec<FromNamedSource<CommentStream>>,
    pub namespace: FromNamedSource<Spanned<IdentToken>>,
    pub error: Option<FromNamedSource<ErrorMeta>>,
    pub version: Option<FromNamedSource<VersionMeta>>,
    pub tag: Option<FromNamedSource<TagMeta>>,
    pub imports: Vec<FromNamedSource<RefOrItemContext>>,
    pub children: Vec<(NamedItemContext, FromNamedSource<NamespaceChild>)>,
    /// The versions resolution settled for the items, by item name.
    pub resolved_versions: StrMap<Spanned<u32>>,
    /// The error types resolution settled for the operations, by item name.
    pub resolved_errors: StrMap<Spanned<String>>,
    /// The aliases resolution rewrote, by name.
    pub resolved_aliases: StrMap<Spanned<Type>>,
}

/// An item declared in a namespace.
#[derive(Debug)]
pub enum NamespaceChild {
    Namespace(Box<NamespaceCtx>),
    OneOf(OneOfDef),
    Enum(EnumDef),
    Struct(StructDef),
    Type(TypeDef),
    Error(ErrorDef),
    Operation(OperationDef),
}

/// The kind of an item, as diagnostics name it; an alias is named by the
/// kind of its target.
pub open spec fn child_kind_name(c: NamespaceChild) -> Seq<char> {
    match c {
        NamespaceChild::Namespace(_) => "namespace"@,
        NamespaceChild::OneOf(_) => "oneof"@,
        NamespaceChild::Enum(_) => "enum"@,
        NamespaceChild::Struct(_) => "struct"@,
        NamespaceChild::Type(t) => type_kind_name(t.def.value.ty.value@),
        NamespaceChild::Error(_) => "error"@,
        NamespaceChild::Operation(_) => "operation"@,
    }
}

impl NamespaceChild {
    pub fn kind_name(&self) -> (r: String)
        ensures
            r@ == child_kind_name(*self),
    {
        match self {
            NamespaceChild::Namespace(_) => String::from_str("namespace"),
            NamespaceChild::OneOf(_) => String::from_str("oneof"),
            NamespaceChild::Enum(_) => String::from_str("enum"),
            NamespaceChild::Struct(_) => String::from_str("struct"),
            NamespaceChild::Type(t) => t.def.value.ty.value.kind_name(),
            NamespaceChild::Error(_) => String::from_str("error"),
            NamespaceChild::Operation(_) => String::from_str("operation"),
        }
    }
}

/// A definition the registry knows, shared.
#[derive(Debug)]
pub enum Definition {
    Struct(Arc<StructDef>),
    Enum(Arc<EnumDef>),
    OneOf(Arc<OneOfDef>),
    Error(Arc<ErrorDef>),
    TypeAlias(Arc<TypeDef>),
    Operation(Arc<OperationDef>),
}

/// A definition with the path it was registered under.
#[derive(Debug)]
pub struct ResolvedType {
    pub kind: Definition,
    pub qualified_path: NamedItemContext,
}

} // verus!
