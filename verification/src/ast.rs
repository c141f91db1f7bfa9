//! The syntax tree of schema types: what the resolution passes walk.
//!
//! Punctuation (braces, separators, keywords) is not kept: it only carries
//! spans, and every node whose position matters is `Spanned`.
use vstd::prelude::*;
use crate::defs::Spanned;
use crate::toks::{IdentToken, Path, join_segments};
use crate::text::append_string;
use crate::paths::append_joined;

verus! {

/// A builtin scalar type.
#[derive(Debug, Clone, Copy, PartialEq, Eq, Structural)]
pub enum Builtin {
    I8,
    I16,
    I32,
    I64,
    U8,
    U16,
    U32,
    U64,
    Usize,
    F16,
    F32,
    F64,
    Bool,
    Str,
    DateTime,
    Complex,
    Binary,
    Base64,
    Never,
}

/// A reference to a type: a bare identifier or a `::` path.
#[derive(Debug)]
pub enum PathOrIdent {
    Ident(Spanned<IdentToken>),
    Path(Spanned<Path>),
}

/// The text of a reference: the identifier, or the segments joined by `::`.
pub open spec fn path_or_ident_text(p: PathOrIdent) -> Seq<char> {
    match p {
        PathOrIdent::Ident(i) => i.value.0@,
        PathOrIdent::Path(p) => join_segments(p.value.bits_view()),
    }
}

/// The printed text of a reference.
pub open spec fn reference_text(p: PathOrIdentV) -> Seq<char> {
    match p {
        PathOrIdentV::Ident(s) => s,
        PathOrIdentV::Path(bits) => join_segments(bits),
    }
}

impl PathOrIdent {
    /// The printed reference.
    pub fn display(&self) -> (r: String)
        ensures
            r@ == path_or_ident_text(*self),
            r@ == reference_text(self@),
    {
        let mut out = String::new();
        match self {
            PathOrIdent::Ident(i) => append_string(&mut out, &i.value.0),
            PathOrIdent::Path(p) => append_joined(&mut out, p.value.segments()),
        }
        out
    }
}

/// Whether a field must be present (`:`) or may be absent (`?:`).
#[derive(Debug, Clone, Copy, PartialEq, Eq, Structural)]
pub enum Sep {
    Required,
    Optional,
}

/// A named, typed field.
#[derive(Debug)]
pub struct Arg {
    pub comments: CommentStream,
    pub name: Spanned<IdentToken>,
    pub sep: Sep,
    pub typ: Type,
}

/// A comment kept with the item it precedes.
#[derive(Debug)]
pub enum CommentAst {
    SingleLine(String),
    MultiLine(String),
}

/// The comments in front of an item.
#[derive(Debug)]
pub struct CommentStream {
    pub comments: Vec<Spanned<CommentAst>>,
}

/// `{ a: T, b?: U }` used in place of a named struct.
#[derive(Debug)]
pub struct AnonymousStruct {
    pub fields: Vec<Spanned<Arg>>,
}

/// `oneof A | B | ...` used in place of a named oneof.
#[derive(Debug)]
pub struct AnonymousOneOf {
    pub variants: Vec<Spanned<Type>>,
}

/// An operand of a union: a referenced struct or an inline one.
#[derive(Debug)]
pub enum UnionDiscriminant {
    Ref(PathOrIdent),
    Anonymous(Spanned<AnonymousStruct>),
}

/// An operand of a union, or a parenthesised union.
#[derive(Debug)]
pub enum IdentOrUnion {
    Ident(UnionDiscriminant),
    Union { inner: Box<Spanned<Union>> },
}

/// `A & B & ...`: the fields of all operands together.
#[derive(Debug)]
pub struct Union {
    pub types: Vec<Spanned<IdentOrUnion>>,
}

/// `T[]` or `T[n]`.
#[derive(Debug)]
pub enum Array {
    Unsized { ty: Box<Spanned<Type>> },
    Sized { ty: Box<Spanned<Type>>, size: Spanned<i32> },
}

/// The field names of `Pick`, `Omit`, `Partial` and `Required`.
#[derive(Debug)]
pub struct SelectorList {
    pub fields: Vec<Spanned<IdentToken>>,
}

/// The variant names of `Exclude` and `Extract`.
#[derive(Debug)]
pub struct VariantList {
    pub variants: Vec<Spanned<IdentToken>>,
}

/// A type operator applied to a target expression.
#[derive(Debug)]
pub enum TypeExprOp {
    Pick { target: TypeExpr, fields: SelectorList },
    Omit { target: TypeExpr, fields: SelectorList },
    Partial { target: TypeExpr, fields: Option<SelectorList> },
    Required { target: TypeExpr, fields: Option<SelectorList> },
    Exclude { target: TypeExpr, variants: VariantList },
    Extract { target: TypeExpr, variants: VariantList },
    ArrayItem { target: TypeExpr },
}

/// A type expression: a reference, a field of one, or an operator.
#[derive(Debug)]
pub enum TypeExpr {
    TypeRef { reference: PathOrIdent },
    FieldAccess { base: Box<Spanned<TypeExpr>>, field: Spanned<IdentToken> },
    Op(Box<Spanned<TypeExprOp>>),
}

/// A type as written in a schema.
#[derive(Debug)]
pub enum Type {
    Builtin { ty: Spanned<Builtin> },
    Ident { to: PathOrIdent },
    Array { ty: Box<Spanned<Array>> },
    Struct { ty: Spanned<AnonymousStruct> },
    OneOf { ty: Spanned<AnonymousOneOf> },
    Union { ty: Spanned<Union> },
    UnionOr { lhs: Box<Spanned<Type>>, rhs: Box<Spanned<Type>> },
    Paren { ty: Box<Spanned<Type>> },
    Result { ty: Box<Spanned<Type>> },
    TypeExpr { expr: Box<Spanned<TypeExpr>> },
}

/// A reference, spans aside.
pub enum PathOrIdentV {
    Ident(Seq<char>),
    Path(Seq<Seq<char>>),
}

/// A field, spans and comments aside.
pub struct ArgV {
    pub name: Seq<char>,
    pub required: bool,
    pub typ: TypeV,
}

/// A union operand, spans aside.
pub enum IdentOrUnionV {
    Ref(PathOrIdentV),
    Anonymous(Seq<ArgV>),
    Nested(Seq<IdentOrUnionV>),
}

/// A type expression, spans aside.
pub enum TypeExprV {
    TypeRef(PathOrIdentV),
    FieldAccess(Box<TypeExprV>, Seq<char>),
    Pick(Box<TypeExprV>, Seq<Seq<char>>),
    Omit(Box<TypeExprV>, Seq<Seq<char>>),
    Partial(Box<TypeExprV>, Option<Seq<Seq<char>>>),
    Required(Box<TypeExprV>, Option<Seq<Seq<char>>>),
    Exclude(Box<TypeExprV>, Seq<Seq<char>>),
    Extract(Box<TypeExprV>, Seq<Seq<char>>),
    ArrayItem(Box<TypeExprV>),
}

/// A type as written, spans aside: what two types with the same printed
/// form have in common.
pub enum TypeV {
    Builtin(Builtin),
    Ident(PathOrIdentV),
    Array(Box<TypeV>, Option<int>),
    Struct(Seq<ArgV>),
    OneOf(Seq<TypeV>),
    Union(Seq<IdentOrUnionV>),
    UnionOr(Box<TypeV>, Box<TypeV>),
    Paren(Box<TypeV>),
    Result(Box<TypeV>),
    TypeExpr(TypeExprV),
}

pub open spec fn path_or_ident_view(p: PathOrIdent) -> PathOrIdentV {
    match p {
        PathOrIdent::Ident(i) => PathOrIdentV::Ident(i.value.0@),
        PathOrIdent::Path(p) => PathOrIdentV::Path(p.value.bits_view()),
    }
}

pub open spec fn names_view(s: Seq<Spanned<IdentToken>>) -> Seq<Seq<char>> {
    s.map_values(|i: Spanned<IdentToken>| i.value.0@)
}

pub open spec fn type_view(t: Type) -> TypeV
    decreases t,
{
    match t {
        Type::Builtin { ty } => TypeV::Builtin(ty.value),
        Type::Ident { to } => TypeV::Ident(path_or_ident_view(to)),
        Type::Array { ty } => match ty.value {
            Array::Unsized { ty } => TypeV::Array(Box::new(type_view(ty.value)), None),
            Array::Sized { ty, size } => TypeV::Array(Box::new(type_view(ty.value)), Some(size.value as int)),
        },
        Type::Struct { ty } => TypeV::Struct(args_view(ty.value.fields@)),
        Type::OneOf { ty } => TypeV::OneOf(types_view(ty.value.variants@)),
        Type::Union { ty } => TypeV::Union(union_view(ty.value.types@)),
        Type::UnionOr { lhs, rhs } => TypeV::UnionOr(Box::new(type_view(lhs.value)), Box::new(type_view(rhs.value))),
        Type::Paren { ty } => TypeV::Paren(Box::new(type_view(ty.value))),
        Type::Result { ty } => TypeV::Result(Box::new(type_view(ty.value))),
        Type::TypeExpr { expr } => TypeV::TypeExpr(type_expr_view(expr.value)),
    }
}

pub open spec fn arg_view(a: Arg) -> ArgV
    decreases a,
{
    ArgV { name: a.name.value.0@, required: a.sep == Sep::Required, typ: type_view(a.typ) }
}

pub open spec fn args_view(s: Seq<Spanned<Arg>>) -> Seq<ArgV>
    decreases s,
{
    if s.len() == 0 {
        Seq::empty()
    } else {
        args_view(s.drop_last()).push(arg_view(s.last().value))
    }
}

pub open spec fn types_view(s: Seq<Spanned<Type>>) -> Seq<TypeV>
    decreases s,
{
    if s.len() == 0 {
        Seq::empty()
    } else {
        types_view(s.drop_last()).push(type_view(s.last().value))
    }
}

pub open spec fn operand_view(o: IdentOrUnion) -> IdentOrUnionV
    decreases o,
{
    match o {
        IdentOrUnion::Ident(UnionDiscriminant::Ref(p)) => IdentOrUnionV::Ref(path_or_ident_view(p)),
        IdentOrUnion::Ident(UnionDiscriminant::Anonymous(a)) => IdentOrUnionV::Anonymous(args_view(a.value.fields@)),
        IdentOrUnion::Union { inner } => IdentOrUnionV::Nested(union_view(inner.value.types@)),
    }
}

pub open spec fn union_view(s: Seq<Spanned<IdentOrUnion>>) -> Seq<IdentOrUnionV>
    decreases s,
{
    if s.len() == 0 {
        Seq::empty()
    } else {
        union_view(s.drop_last()).push(operand_view(s.last().value))
    }
}

pub open spec fn selectors_view(l: Option<SelectorList>) -> Option<Seq<Seq<char>>> {
    match l {
        Some(l) => Some(names_view(l.fields@)),
        None => None,
    }
}

pub open spec fn type_expr_view(e: TypeExpr) -> TypeExprV
    decreases e,
{
    match e {
        TypeExpr::TypeRef { reference } => TypeExprV::TypeRef(path_or_ident_view(reference)),
        TypeExpr::FieldAccess { base, field } => TypeExprV::FieldAccess(Box::new(type_expr_view(base.value)), field.value.0@),
        TypeExpr::Op(op) => match op.value {
            TypeExprOp::Pick { target, fields } => TypeExprV::Pick(Box::new(type_expr_view(target)), names_view(fields.fields@)),
            TypeExprOp::Omit { target, fields } => TypeExprV::Omit(Box::new(type_expr_view(target)), names_view(fields.fields@)),
            TypeExprOp::Partial { target, fields } => TypeExprV::Partial(Box::new(type_expr_view(target)), selectors_view(fields)),
            TypeExprOp::Required { target, fields } => TypeExprV::Required(Box::new(type_expr_view(target)), selectors_view(fields)),
            TypeExprOp::Exclude { target, variants } => TypeExprV::Exclude(Box::new(type_expr_view(target)), names_view(variants.variants@)),
            TypeExprOp::Extract { target, variants } => TypeExprV::Extract(Box::new(type_expr_view(target)), names_view(variants.variants@)),
            TypeExprOp::ArrayItem { target } => TypeExprV::ArrayItem(Box::new(type_expr_view(target))),
        },
    }
}

impl View for Type {
    type V = TypeV;

    open spec fn view(&self) -> TypeV {
        type_view(*self)
    }
}

impl View for PathOrIdent {
    type V = PathOrIdentV;

    open spec fn view(&self) -> PathOrIdentV {
        path_or_ident_view(*self)
    }
}

impl View for Arg {
    type V = ArgV;

    open spec fn view(&self) -> ArgV {
        arg_view(*self)
    }
}

impl View for TypeExpr {
    type V = TypeExprV;

    open spec fn view(&self) -> TypeExprV {
        type_expr_view(*self)
    }
}

/// The keyword of a builtin type.
pub open spec fn builtin_keyword(b: Builtin) -> Seq<char> {
    match b {
        Builtin::I8 => "i8"@,
        Builtin::I16 => "i16"@,
        Builtin::I32 => "i32"@,
        Builtin::I64 => "i64"@,
        Builtin::U8 => "u8"@,
        Builtin::U16 => "u16"@,
        Builtin::U32 => "u32"@,
        Builtin::U64 => "u64"@,
        Builtin::Usize => "usize"@,
        Builtin::F16 => "f16"@,
        Builtin::F32 => "f32"@,
        Builtin::F64 => "f64"@,
        Builtin::Bool => "bool"@,
        Builtin::Str => "str"@,
        Builtin::DateTime => "datetime"@,
        Builtin::Complex => "complex"@,
        Builtin::Binary => "binary"@,
        Builtin::Base64 => "base64"@,
        Builtin::Never => "never"@,
    }
}

impl Builtin {
    /// The keyword of this builtin type.
    pub fn keyword(&self) -> (r: &'static str)
        ensures
            r@ == builtin_keyword(*self),
    {
        match self {
            Builtin::I8 => "i8",
            Builtin::I16 => "i16",
            Builtin::I32 => "i32",
            Builtin::I64 => "i64",
            Builtin::U8 => "u8",
            Builtin::U16 => "u16",
            Builtin::U32 => "u32",
            Builtin::U64 => "u64",
            Builtin::Usize => "usize",
            Builtin::F16 => "f16",
            Builtin::F32 => "f32",
            Builtin::F64 => "f64",
            Builtin::Bool => "bool",
            Builtin::Str => "str",
            Builtin::DateTime => "datetime",
            Builtin::Complex => "complex",
            Builtin::Binary => "binary",
            Builtin::Base64 => "base64",
            Builtin::Never => "never",
        }
    }
}

/// The kind of a type, as diagnostics name it: a builtin by its keyword.
pub open spec fn type_kind_name(t: TypeV) -> Seq<char> {
    match t {
        TypeV::Builtin(b) => builtin_keyword(b),
        TypeV::Ident(_) => "reference"@,
        TypeV::Array(_, _) => "array"@,
        TypeV::Struct(_) => "struct"@,
        TypeV::OneOf(_) => "oneof"@,
        TypeV::Union(_) => "union"@,
        TypeV::UnionOr(_, _) => "union or"@,
        TypeV::Paren(_) => "paren"@,
        TypeV::Result(_) => "result"@,
        TypeV::TypeExpr(_) => "type expression"@,
    }
}

impl Type {
    /// The kind of this type, as diagnostics name it.
    pub fn kind_name(&self) -> (r: String)
        ensures
            r@ == type_kind_name(self@),
    {
        let s: &str = match self {
            Type::Builtin { ty } => ty.value.keyword(),
            Type::Ident { .. } => "reference",
            Type::Array { .. } => "array",
            Type::Struct { .. } => "struct",
            Type::OneOf { .. } => "oneof",
            Type::Union { .. } => "union",
            Type::UnionOr { .. } => "union or",
            Type::Paren { .. } => "paren",
            Type::Result { .. } => "result",
            Type::TypeExpr { .. } => "type expression",
        };
        String::from_str(s)
    }
}

/// A variant of a named oneof or error.
#[derive(Debug)]
pub enum Variant {
    Tuple { comments: CommentStream, name: Spanned<IdentToken>, inner: Type },
    LocalStruct { comments: CommentStream, name: Spanned<IdentToken>, inner: Spanned<AnonymousStruct> },
    Unit { name: Spanned<IdentToken> },
}

/// `struct Name { ... };`
#[derive(Debug)]
pub struct Struct {
    pub name: Spanned<IdentToken>,
    pub args: Vec<Spanned<Arg>>,
}

/// A struct definition with the comments and metadata lines in front of it.
#[derive(Debug)]
pub struct StructDef {
    pub comments: Vec<CommentStream>,
    pub meta: Vec<Spanned<ItemMeta>>,
    pub def: Spanned<Struct>,
}

/// `type Name = T;`
#[derive(Debug)]
pub struct TypeAlias {
    pub name: Spanned<IdentToken>,
    pub ty: Spanned<Type>,
}

#[derive(Debug)]
pub struct TypeDef {
    pub comments: Vec<CommentStream>,
    pub meta: Vec<Spanned<ItemMeta>>,
    pub def: Spanned<TypeAlias>,
}

/// `oneof Name { A(T), B { ... }, C };`
#[derive(Debug)]
pub struct OneOf {
    pub name: Spanned<IdentToken>,
    pub variants: Vec<Spanned<Variant>>,
}

#[derive(Debug)]
pub struct OneOfDef {
    pub comments: Vec<CommentStream>,
    pub meta: Vec<Spanned<ItemMeta>>,
    pub def: Spanned<OneOf>,
}

/// `error Name { ... };`
#[derive(Debug)]
pub struct ErrorDef {
    pub comments: Vec<CommentStream>,
    pub meta: Vec<Spanned<ItemMeta>>,
    pub def: Spanned<OneOf>,
}

/// A variant of an enum: a name and its value, if written.
#[derive(Debug)]
pub enum EnumValue {
    Int(Spanned<i32>),
    Str(Spanned<String>),
}

#[derive(Debug)]
pub struct EnumVariant {
    pub comments: CommentStream,
    pub name: Spanned<IdentToken>,
    pub value: Option<EnumValue>,
}

/// Whether an enum's values are numbers or strings.
#[derive(Debug, Clone, Copy, PartialEq, Eq, Structural)]
pub enum EnumKind {
    Int,
    Str,
}

/// `enum Name { ... };`
#[derive(Debug)]
pub struct Enum {
    pub kind: EnumKind,
    pub name: Spanned<IdentToken>,
    pub variants: Vec<Spanned<EnumVariant>>,
}

#[derive(Debug)]
pub struct EnumDef {
    pub comments: Vec<CommentStream>,
    pub meta: Vec<Spanned<ItemMeta>>,
    pub def: Spanned<Enum>,
}

/// `operation name(args) -> T;`
#[derive(Debug)]
pub struct Operation {
    pub name: Spanned<IdentToken>,
    pub args: Option<Spanned<Vec<Spanned<Arg>>>>,
    pub return_type: Spanned<Type>,
}

#[derive(Debug)]
pub struct OperationDef {
    pub comments: Vec<CommentStream>,
    pub meta: Vec<Spanned<ItemMeta>>,
    pub def: Spanned<Operation>,
}

/// The value written in a metadata line.
#[derive(Debug)]
pub struct MetaValue<T> {
    pub value: T,
}

/// `#[version(n)]`
pub type VersionMeta = Spanned<MetaValue<Spanned<i32>>>;

/// `#[err(Name)]`
pub type ErrorMeta = Spanned<MetaValue<Spanned<PathOrIdent>>>;

/// `#[tag(...)]`: the tagging written between the parentheses.
pub type TagMeta = Spanned<MetaValue<Spanned<String>>>;

/// A metadata line in front of an item.
#[derive(Debug)]
pub enum ItemMeta {
    Version(VersionMeta),
    Error(ErrorMeta),
    Tag(TagMeta),
}

} // verus!
