//! The items of a parsed schema file, in the order they were written, with
//! the metadata lines written at the top of the file.
use vstd::prelude::*;
use crate::defs::Spanned;
use crate::ast::{CommentStream, EnumDef, ErrorDef, ItemMeta, OneOfDef, OperationDef, StructDef, TypeDef};
use crate::paths::RefOrItemContext;
use crate::toks::IdentToken;

verus! {

/// `namespace name;` with the metadata lines in front of it.
#[derive(Debug)]
pub struct NamespaceDef {
    pub meta: Vec<Spanned<ItemMeta>>,
    pub name: Spanned<IdentToken>,
}

/// `use ...;`: the name it starts with, and the paths it brings into
/// scope, already qualified.
#[derive(Debug)]
pub struct UseDef {
    pub root: Spanned<IdentToken>,
    pub paths: Vec<RefOrItemContext>,
}

/// `namespace name { ... }`: a namespace written inside another file.
#[derive(Debug)]
pub struct SpannedNamespace {
    pub name: Spanned<IdentToken>,
    pub ast: AstStream,
}

/// One item of a file.
#[derive(Debug)]
pub enum Item {
    Namespace(NamespaceDef),
    Use(UseDef),
    SpannedNamespace(SpannedNamespace),
    OneOf(OneOfDef),
    Enum(EnumDef),
    Struct(StructDef),
    Type(TypeDef),
    Error(ErrorDef),
    Operation(OperationDef),
}

/// A parsed file: the comments and the metadata lines at its top, then
/// its items.
#[derive(Debug)]
pub struct AstStream {
    pub module_comments: CommentStream,
    pub module_meta: Vec<Spanned<ItemMeta>>,
    pub nodes: Vec<Spanned<Item>>,
}

} // verus!
