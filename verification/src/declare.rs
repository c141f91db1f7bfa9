//! Declarations: the resolved, serialisable description of a package's
//! types, and the items of other packages they refer to.
use vstd::prelude::*;
use crate::defs::Spanned;
use crate::toks::{join_segments, strings_view};
use crate::ast::{self as syntax, CommentAst, CommentStream};
use crate::paths::{NamedItemContext, RefContext, clone_strings, append_joined};
use crate::pathord::PathV;
use crate::refset::{DeclNamedItemContext, DeclRefContext, RefSet};
use crate::ordmap::StrMap;
use crate::text::str_eq;

verus! {

/// Comments kept with a declaration.
#[derive(Debug)]
pub struct DeclComment {
    pub comments: Vec<String>,
}

impl DeclComment {
    pub fn new() -> (r: Self)
        ensures
            r.comments@.len() == 0,
    {
        DeclComment { comments: Vec::new() }
    }

    pub fn from_vec(comments: Vec<String>) -> (r: Self)
        ensures
            r.comments == comments,
    {
        DeclComment { comments }
    }

    pub fn is_empty(&self) -> (r: bool)
        ensures
            r == (self.comments@.len() == 0),
    {
        self.comments.len() == 0
    }

    pub fn push(&mut self, comment: String)
        ensures
            final(self).comments@ == old(self).comments@.push(comment),
    {
        self.comments.push(comment);
    }

    /// Appends the comments of `other`.
    pub fn merge(&mut self, other: DeclComment)
        ensures
            final(self).comments@ == old(self).comments@ + other.comments@,
    {
        let mut other = other;
        self.comments.append(&mut other.comments);
    }
}

/// The comments of a stream, single- and multi-line alike, in order.
pub fn extract_comments(comment_stream: &CommentStream) -> (r: DeclComment)
    ensures
        r.comments@.len() == comment_stream.comments@.len(),
        forall|i: int| 0 <= i < r.comments@.len() ==> (#[trigger] r.comments@[i])@ == match comment_stream.comments@[i].value {
            CommentAst::SingleLine(s) => s@,
            CommentAst::MultiLine(s) => s@,
        },
{
    let mut comments: Vec<String> = Vec::new();
    let mut k: usize = 0;
    while k < comment_stream.comments.len()
        invariant
            k <= comment_stream.comments@.len(),
            comments@.len() == k,
            forall|i: int| 0 <= i < k ==> (#[trigger] comments@[i])@ == match comment_stream.comments@[i].value {
                CommentAst::SingleLine(s) => s@,
                CommentAst::MultiLine(s) => s@,
            },
        decreases comment_stream.comments@.len() - k,
    {
        let text = match &comment_stream.comments[k].value {
            CommentAst::SingleLine(token) => token.clone(),
            CommentAst::MultiLine(token) => token.clone(),
        };
        comments.push(text);
        k += 1;
    }
    DeclComment::from_vec(comments)
}

impl DeclRefContext {
    pub fn from_ref_context(ctx: &RefContext) -> (r: Self)
        ensures
            r.package@ == ctx.package@,
            strings_view(r.namespace@) == strings_view(ctx.namespace@),
    {
        DeclRefContext { package: ctx.package.clone(), namespace: clone_strings(&ctx.namespace) }
    }
}

/// `package::ns1::...::name`.
pub open spec fn qualified_text(p: PathV) -> Seq<char> {
    join_segments(seq![p.0] + p.1 + seq![p.2])
}

impl DeclNamedItemContext {
    pub fn from_named_item_context(ctx: &NamedItemContext) -> (r: Self)
        ensures
            r@ == (ctx@.context.package, ctx@.context.namespace, ctx@.name),
    {
        DeclNamedItemContext {
            context: DeclRefContext::from_ref_context(&ctx.context),
            name: ctx.name.value.0.clone(),
        }
    }

    /// The path joined by `::`.
    pub fn qualified_path(&self) -> (r: String)
        ensures
            r@ == qualified_text(self@),
    {
        let mut parts: Vec<String> = Vec::new();
        parts.push(self.context.package.clone());
        let mut k: usize = 0;
        while k < self.context.namespace.len()
            invariant
                k <= self.context.namespace@.len(),
                strings_view(parts@) == seq![self.context.package@] + strings_view(self.context.namespace@).subrange(0, k as int),
            decreases self.context.namespace@.len() - k,
        {
            let ghost p0 = parts@;
            parts.push(self.context.namespace[k].clone());
            assert(strings_view(parts@) =~= strings_view(p0).push(self.context.namespace@[k as int]@));
            assert(strings_view(self.context.namespace@).subrange(0, k + 1)
                =~= strings_view(self.context.namespace@).subrange(0, k as int).push(self.context.namespace@[k as int]@));
            k += 1;
        }
        let ghost p1 = parts@;
        parts.push(self.name.clone());
        assert(strings_view(parts@) =~= strings_view(p1).push(self.name@));
        assert(strings_view(self.context.namespace@).subrange(0, self.context.namespace@.len() as int) =~= strings_view(self.context.namespace@));
        assert(strings_view(parts@) =~= seq![self.context.package@] + strings_view(self.context.namespace@) + seq![self.name@]);
        let mut out = String::new();
        append_joined(&mut out, &parts);
        out
    }

    /// Whether the item belongs to a package other than `root_package`.
    pub fn is_external(&self, root_package: &str) -> (r: bool)
        ensures
            r == (self.context.package@ != root_package@),
    {
        let root = String::from_str(root_package);
        !str_eq(&self.context.package, &root)
    }
}

/// A builtin scalar type, as declared.
#[derive(Debug, Clone, Copy, PartialEq, Eq, Structural)]
pub enum Builtin {
    I8,
    I16,
    I32,
    I64,
    U8,
    U16,
    U32,
    U64,
    Usize,
    F16,
    F32,
    F64,
    Bool,
    Str,
    DateTime,
    Complex,
    Binary,
    Base64,
    Never,
}

impl Builtin {
    /// The declared builtin a written one stands for: the one of the same
    /// name.
    pub fn from_ast_builtin(builtin: &syntax::Builtin) -> (r: Self)
        ensures
            r == builtin_of(*builtin),
    {
        match builtin {
            syntax::Builtin::I8 => Builtin::I8,
            syntax::Builtin::I16 => Builtin::I16,
            syntax::Builtin::I32 => Builtin::I32,
            syntax::Builtin::I64 => Builtin::I64,
            syntax::Builtin::U8 => Builtin::U8,
            syntax::Builtin::U16 => Builtin::U16,
            syntax::Builtin::U32 => Builtin::U32,
            syntax::Builtin::U64 => Builtin::U64,
            syntax::Builtin::Usize => Builtin::Usize,
            syntax::Builtin::F16 => Builtin::F16,
            syntax::Builtin::F32 => Builtin::F32,
            syntax::Builtin::F64 => Builtin::F64,
            syntax::Builtin::Bool => Builtin::Bool,
            syntax::Builtin::Str => Builtin::Str,
            syntax::Builtin::DateTime => Builtin::DateTime,
            syntax::Builtin::Complex => Builtin::Complex,
            syntax::Builtin::Binary => Builtin::Binary,
            syntax::Builtin::Base64 => Builtin::Base64,
            syntax::Builtin::Never => Builtin::Never,
        }
    }
}

/// The declared builtin of the same name.
pub open spec fn builtin_of(b: syntax::Builtin) -> Builtin {
    match b {
        syntax::Builtin::I8 => Builtin::I8,
        syntax::Builtin::I16 => Builtin::I16,
        syntax::Builtin::I32 => Builtin::I32,
        syntax::Builtin::I64 => Builtin::I64,
        syntax::Builtin::U8 => Builtin::U8,
        syntax::Builtin::U16 => Builtin::U16,
        syntax::Builtin::U32 => Builtin::U32,
        syntax::Builtin::U64 => Builtin::U64,
        syntax::Builtin::Usize => Builtin::Usize,
        syntax::Builtin::F16 => Builtin::F16,
        syntax::Builtin::F32 => Builtin::F32,
        syntax::Builtin::F64 => Builtin::F64,
        syntax::Builtin::Bool => Builtin::Bool,
        syntax::Builtin::Str => Builtin::Str,
        syntax::Builtin::DateTime => Builtin::DateTime,
        syntax::Builtin::Complex => Builtin::Complex,
        syntax::Builtin::Binary => Builtin::Binary,
        syntax::Builtin::Base64 => Builtin::Base64,
        syntax::Builtin::Never => Builtin::Never,
    }
}

/// A declared type.
#[derive(Debug)]
pub enum DeclType {
    Builtin { ty: Builtin },
    Named { reference: DeclNamedItemContext },
    Array { element_type: Box<DeclType> },
    SizedArray { element_type: Box<DeclType>, size: u64 },
    Result { ok_type: Box<DeclType>, error: DeclNamedItemContext },
    Optional { inner_type: Box<DeclType> },
    MapOf { key_type: Box<DeclType>, value_type: Box<DeclType> },
    Paren { inner_type: Box<DeclType> },
}

/// `{r}` when `r` is in another package than `root`, else nothing.
pub open spec fn external_ref(r: PathV, root: Seq<char>) -> Set<PathV> {
    if r.0 != root { set![r] } else { Set::empty() }
}

/// The items of other packages a declared type refers to.
pub open spec fn type_refs(t: DeclType, root: Seq<char>) -> Set<PathV>
    decreases t,
{
    match t {
        DeclType::Named { reference } => external_ref(reference@, root),
        DeclType::Array { element_type } => type_refs(*element_type, root),
        DeclType::SizedArray { element_type, .. } => type_refs(*element_type, root),
        DeclType::Result { ok_type, error } => type_refs(*ok_type, root).union(external_ref(error@, root)),
        DeclType::Optional { inner_type } => type_refs(*inner_type, root),
        DeclType::MapOf { key_type, value_type } => type_refs(*key_type, root).union(type_refs(*value_type, root)),
        DeclType::Paren { inner_type } => type_refs(*inner_type, root),
        DeclType::Builtin { .. } => Set::empty(),
    }
}

pub(crate) fn add_if_external(r: &DeclNamedItemContext, root_package: &str, refs: &mut RefSet)
    requires
        old(refs).wf(),
    ensures
        final(refs).wf(),
        final(refs).set() == old(refs).set().union(external_ref(r@, root_package@)),
{
    if r.is_external(root_package) {
        refs.insert(r.duplicate());
        assert(old(refs).set().insert(r@) =~= old(refs).set().union(set![r@]));
    } else {
        assert(old(refs).set() =~= old(refs).set().union(Set::empty()));
    }
}

impl DeclType {
    /// Adds the items of other packages this type refers to.
    pub fn collect_external_refs(&self, root_package: &str, refs: &mut RefSet)
        requires
            old(refs).wf(),
        ensures
            final(refs).wf(),
            final(refs).set() == old(refs).set().union(type_refs(*self, root_package@)),
        decreases self,
    {
        let ghost s0 = refs.set();
        match self {
            DeclType::Named { reference } => {
                add_if_external(reference, root_package, refs);
            },
            DeclType::Array { element_type } => {
                element_type.collect_external_refs(root_package, refs);
            },
            DeclType::SizedArray { element_type, .. } => {
                element_type.collect_external_refs(root_package, refs);
            },
            DeclType::Result { ok_type, error } => {
                ok_type.collect_external_refs(root_package, refs);
                add_if_external(error, root_package, refs);
                assert(refs.set() =~= s0.union(type_refs(*self, root_package@)));
            },
            DeclType::Optional { inner_type } => {
                inner_type.collect_external_refs(root_package, refs);
            },
            DeclType::MapOf { key_type, value_type } => {
                key_type.collect_external_refs(root_package, refs);
                value_type.collect_external_refs(root_package, refs);
                assert(refs.set() =~= s0.union(type_refs(*self, root_package@)));
            },
            DeclType::Paren { inner_type } => {
                inner_type.collect_external_refs(root_package, refs);
            },
            DeclType::Builtin { .. } => {
                assert(refs.set() =~= s0.union(Set::empty()));
            },
        }
    }
}

/// Whether enum values are numbers or strings.
#[derive(Debug, Clone, Copy, PartialEq, Eq, Structural)]
pub enum DeclEnumValueType {
    Int,
    String,
}

#[derive(Debug)]
pub struct DeclIntVariant {
    pub name: String,
    pub value: u32,
    pub comments: DeclComment,
}

#[derive(Debug)]
pub struct DeclStringVariant {
    pub name: String,
    pub value: String,
    pub comments: DeclComment,
}

#[derive(Debug)]
pub enum DeclEnum {
    Int(Vec<DeclIntVariant>),
    String(Vec<DeclStringVariant>),
}

#[derive(Debug)]
pub struct DeclField {
    pub name: String,
    pub ty: DeclType,
    pub default_value: Option<String>,
    pub optional: bool,
    pub comments: DeclComment,
}

#[derive(Debug)]
pub struct DeclArg {
    pub name: String,
    pub ty: DeclType,
    pub default_value: Option<String>,
    pub comments: DeclComment,
}

/// The version an item belongs to.
#[derive(Debug, Clone, Copy, PartialEq, Eq, Structural)]
pub struct Meta {
    pub version: u32,
}

impl Meta {
    pub fn new(version: u32) -> (r: Self)
        ensures
            r.version == version,
    {
        Meta { version }
    }

    /// The version resolved for an item, if one was.
    pub fn from_resolved_version(item_name: &str, resolved_versions: &StrMap<Spanned<u32>>) -> (r: Option<Self>)
        requires
            resolved_versions.wf(),
        ensures
            r == match resolved_versions.spec_get(item_name@) {
                Some(v) => Some(Meta { version: v.value }),
                None => None,
            },
    {
        let key = String::from_str(item_name);
        match resolved_versions.get(&key) {
            Some(v) => Some(Meta::new(v.value)),
            None => None,
        }
    }
}

#[derive(Debug)]
pub struct DeclStruct {
    pub name: String,
    pub fields: Vec<DeclField>,
    pub meta: Meta,
    pub comments: DeclComment,
}

#[derive(Debug)]
pub struct DeclEnumDef {
    pub name: String,
    pub enum_def: DeclEnum,
    pub meta: Meta,
    pub comments: DeclComment,
}

#[derive(Debug)]
pub struct DeclOneOfVariant {
    pub name: String,
    pub ty: DeclType,
    pub comments: DeclComment,
}

#[derive(Debug)]
pub struct DeclOneOf {
    pub name: String,
    pub variants: Vec<DeclOneOfVariant>,
    pub meta: Meta,
    pub comments: DeclComment,
}

#[derive(Debug)]
pub struct DeclTypeAlias {
    pub name: String,
    pub target: DeclType,
    pub meta: Meta,
    pub comments: DeclComment,
}

#[derive(Debug)]
pub struct DeclError {
    pub name: String,
    pub variants: Vec<DeclOneOfVariant>,
    pub meta: Meta,
    pub comments: DeclComment,
}

#[derive(Debug)]
pub struct DeclOperation {
    pub name: String,
    pub args: Vec<DeclArg>,
    pub return_type: DeclType,
    pub meta: Meta,
    pub comments: DeclComment,
}

/// A declared item.
#[derive(Debug)]
pub enum TypeDefinition {
    Struct(DeclStruct),
    Enum(DeclEnumDef),
    OneOf(DeclOneOf),
    TypeAlias(DeclTypeAlias),
    Error(DeclError),
    Operation(DeclOperation),
}

pub open spec fn field_refs(s: Seq<DeclField>, root: Seq<char>) -> Set<PathV>
    decreases s.len(),
{
    if s.len() == 0 { Set::empty() } else { field_refs(s.drop_last(), root).union(type_refs(s.last().ty, root)) }
}

pub open spec fn variant_refs(s: Seq<DeclOneOfVariant>, root: Seq<char>) -> Set<PathV>
    decreases s.len(),
{
    if s.len() == 0 { Set::empty() } else { variant_refs(s.drop_last(), root).union(type_refs(s.last().ty, root)) }
}

pub open spec fn arg_refs(s: Seq<DeclArg>, root: Seq<char>) -> Set<PathV>
    decreases s.len(),
{
    if s.len() == 0 { Set::empty() } else { arg_refs(s.drop_last(), root).union(type_refs(s.last().ty, root)) }
}

/// The items of other packages a declared item refers to.
pub open spec fn definition_refs(d: TypeDefinition, root: Seq<char>) -> Set<PathV> {
    match d {
        TypeDefinition::Struct(s) => field_refs(s.fields@, root),
        TypeDefinition::OneOf(o) => variant_refs(o.variants@, root),
        TypeDefinition::TypeAlias(t) => type_refs(t.target, root),
        TypeDefinition::Error(e) => variant_refs(e.variants@, root),
        TypeDefinition::Operation(o) => arg_refs(o.args@, root).union(type_refs(o.return_type, root)),
        TypeDefinition::Enum(_) => Set::empty(),
    }
}

fn collect_variants(vs: &Vec<DeclOneOfVariant>, root_package: &str, refs: &mut RefSet)
    requires
        old(refs).wf(),
    ensures
        final(refs).wf(),
        final(refs).set() == old(refs).set().union(variant_refs(vs@, root_package@)),
{
    let ghost s0 = refs.set();
    let mut k: usize = 0;
    while k < vs.len()
        invariant
            refs.wf(),
            k <= vs@.len(),
            refs.set() == s0.union(variant_refs(vs@.subrange(0, k as int), root_package@)),
        decreases vs@.len() - k,
    {
        vs[k].ty.collect_external_refs(root_package, refs);
        assert(vs@.subrange(0, k + 1).drop_last() =~= vs@.subrange(0, k as int));
        assert(refs.set() =~= s0.union(variant_refs(vs@.subrange(0, k + 1), root_package@)));
        k += 1;
    }
    assert(vs@.subrange(0, vs@.len() as int) =~= vs@);
}

impl TypeDefinition {
    /// The item's name.
    pub fn name(&self) -> (r: &String)
        ensures
            *r == match *self {
                TypeDefinition::Struct(s) => s.name,
                TypeDefinition::Enum(e) => e.name,
                TypeDefinition::OneOf(o) => o.name,
                TypeDefinition::TypeAlias(t) => t.name,
                TypeDefinition::Error(e) => e.name,
                TypeDefinition::Operation(o) => o.name,
            },
    {
        match self {
            TypeDefinition::Struct(s) => &s.name,
            TypeDefinition::Enum(e) => &e.name,
            TypeDefinition::OneOf(o) => &o.name,
            TypeDefinition::TypeAlias(t) => &t.name,
            TypeDefinition::Error(e) => &e.name,
            TypeDefinition::Operation(o) => &o.name,
        }
    }

    /// The item's version.
    pub fn meta(&self) -> (r: &Meta)
        ensures
            *r == match *self {
                TypeDefinition::Struct(s) => s.meta,
                TypeDefinition::Enum(e) => e.meta,
                TypeDefinition::OneOf(o) => o.meta,
                TypeDefinition::TypeAlias(t) => t.meta,
                TypeDefinition::Error(e) => e.meta,
                TypeDefinition::Operation(o) => o.meta,
            },
    {
        match self {
            TypeDefinition::Struct(s) => &s.meta,
            TypeDefinition::Enum(e) => &e.meta,
            TypeDefinition::OneOf(o) => &o.meta,
            TypeDefinition::TypeAlias(t) => &t.meta,
            TypeDefinition::Error(e) => &e.meta,
            TypeDefinition::Operation(o) => &o.meta,
        }
    }

    /// Adds the items of other packages this item refers to.
    pub fn collect_external_refs(&self, root_package: &str, refs: &mut RefSet)
        requires
            old(refs).wf(),
        ensures
            final(refs).wf(),
            final(refs).set() == old(refs).set().union(definition_refs(*self, root_package@)),
    {
        let ghost s0 = refs.set();
        match self {
            TypeDefinition::Struct(s) => {
                let fs = &s.fields;
                let mut k: usize = 0;
                while k < fs.len()
                    invariant
                        refs.wf(),
                        k <= fs@.len(),
                        refs.set() == s0.union(field_refs(fs@.subrange(0, k as int), root_package@)),
                    decreases fs@.len() - k,
                {
                    fs[k].ty.collect_external_refs(root_package, refs);
                    assert(fs@.subrange(0, k + 1).drop_last() =~= fs@.subrange(0, k as int));
                    assert(refs.set() =~= s0.union(field_refs(fs@.subrange(0, k + 1), root_package@)));
                    k += 1;
                }
                assert(fs@.subrange(0, fs@.len() as int) =~= fs@);
            },
            TypeDefinition::OneOf(o) => {
                collect_variants(&o.variants, root_package, refs);
            },
            TypeDefinition::TypeAlias(t) => {
                t.target.collect_external_refs(root_package, refs);
            },
            TypeDefinition::Error(e) => {
                collect_variants(&e.variants, root_package, refs);
            },
            TypeDefinition::Operation(o) => {
                let args = &o.args;
                let mut k: usize = 0;
                while k < args.len()
                    invariant
                        refs.wf(),
                        k <= args@.len(),
                        refs.set() == s0.union(arg_refs(args@.subrange(0, k as int), root_package@)),
                    decreases args@.len() - k,
                {
                    args[k].ty.collect_external_refs(root_package, refs);
                    assert(args@.subrange(0, k + 1).drop_last() =~= args@.subrange(0, k as int));
                    assert(refs.set() =~= s0.union(arg_refs(args@.subrange(0, k + 1), root_package@)));
                    k += 1;
                }
                assert(args@.subrange(0, args@.len() as int) =~= args@);
                o.return_type.collect_external_refs(root_package, refs);
                assert(refs.set() =~= s0.union(definition_refs(*self, root_package@)));
            },
            TypeDefinition::Enum(_) => {
                assert(refs.set() =~= s0.union(Set::empty()));
            },
        }
    }
}

/// A namespace's declarations, with its nested namespaces by name.
#[derive(Debug)]
pub struct DeclNamespace {
    pub name: String,
    pub version: Option<u32>,
    pub error: Option<DeclNamedItemContext>,
    pub types: Vec<TypeDefinition>,
    /// Nested namespaces, in name order.
    pub namespaces: Vec<(String, Box<DeclNamespace>)>,
    pub comments: DeclComment,
}

pub open spec fn definitions_refs(s: Seq<TypeDefinition>, root: Seq<char>) -> Set<PathV>
    decreases s.len(),
{
    if s.len() == 0 { Set::empty() } else { definitions_refs(s.drop_last(), root).union(definition_refs(s.last(), root)) }
}

/// The items of other packages a namespace refers to: its error type, its
/// items', and its nested namespaces'.
pub open spec fn namespace_refs(ns: DeclNamespace, root: Seq<char>) -> Set<PathV>
    decreases ns,
{
    let own = match ns.error {
        Some(e) => external_ref(e@, root),
        None => Set::empty(),
    };
    own.union(definitions_refs(ns.types@, root)).union(nested_refs(ns.namespaces@, root))
}

pub open spec fn nested_refs(s: Seq<(String, Box<DeclNamespace>)>, root: Seq<char>) -> Set<PathV>
    decreases s,
{
    if s.len() == 0 { Set::empty() } else { nested_refs(s.drop_last(), root).union(namespace_refs(*s.last().1, root)) }
}

impl DeclNamespace {
    /// Adds the items of other packages this namespace refers to.
    pub fn collect_external_refs(&self, root_package: &str, refs: &mut RefSet)
        requires
            old(refs).wf(),
        ensures
            final(refs).wf(),
            final(refs).set() == old(refs).set().union(namespace_refs(*self, root_package@)),
        decreases self,
    {
        let ghost s0 = refs.set();
        match &self.error {
            Some(error) => add_if_external(error, root_package, refs),
            None => {
                assert(refs.set() =~= s0.union(Set::empty()));
            },
        }
        let ghost s1 = refs.set();
        let mut k: usize = 0;
        while k < self.types.len()
            invariant
                refs.wf(),
                k <= self.types@.len(),
                refs.set() == s1.union(definitions_refs(self.types@.subrange(0, k as int), root_package@)),
            decreases self.types@.len() - k,
        {
            self.types[k].collect_external_refs(root_package, refs);
            assert(self.types@.subrange(0, k + 1).drop_last() =~= self.types@.subrange(0, k as int));
            assert(refs.set() =~= s1.union(definitions_refs(self.types@.subrange(0, k + 1), root_package@)));
            k += 1;
        }
        assert(self.types@.subrange(0, self.types@.len() as int) =~= self.types@);
        let ghost s2 = refs.set();
        let nested = &self.namespaces;
        let mut j: usize = 0;
        while j < nested.len()
            invariant
                refs.wf(),
                *nested == self.namespaces,
                j <= nested@.len(),
                refs.set() == s2.union(nested_refs(nested@.subrange(0, j as int), root_package@)),
            decreases nested@.len() - j,
        {
            proof {
                assert(decreases_to!(*self => self.namespaces));
                assert(decreases_to!(self.namespaces => self.namespaces@));
                assert(decreases_to!(nested@ => nested@[j as int]));
                assert(decreases_to!(nested@[j as int] => nested@[j as int].1));
            }
            nested[j].1.collect_external_refs(root_package, refs);
            assert(nested@.subrange(0, j + 1).drop_last() =~= nested@.subrange(0, j as int));
            assert(refs.set() =~= s2.union(nested_refs(nested@.subrange(0, j + 1), root_package@)));
            j += 1;
        }
        assert(nested@.subrange(0, nested@.len() as int) =~= nested@);
        assert(refs.set() =~= s0.union(namespace_refs(*self, root_package@)));
    }
}

/// A package's declarations: its namespaces by name and the items of other
/// packages it refers to.
#[derive(Debug)]
pub struct TypeRegistryDeclaration {
    pub package: String,
    pub namespaces: StrMap<DeclNamespace>,
    pub external_refs: RefSet,
}

impl TypeRegistryDeclaration {
    pub fn new(package: String) -> (r: Self)
        ensures
            r.package == package,
            r.namespaces.wf(),
            r.namespaces.entries().len() == 0,
            r.external_refs.wf(),
            r.external_refs.set() == Set::<PathV>::empty(),
    {
        TypeRegistryDeclaration { package, namespaces: StrMap::new(), external_refs: RefSet::new() }
    }

    /// Adds references to items of other packages.
    pub fn extend_refs(&mut self, refs: RefSet)
        requires
            old(self).external_refs.wf(),
        ensures
            final(self).external_refs.wf(),
            final(self).external_refs.set() == old(self).external_refs.set().union(refs.set()),
            final(self).package == old(self).package,
            final(self).namespaces == old(self).namespaces,
    {
        self.external_refs.extend(refs);
    }
}

/// A package's declarations with those of the packages it depends on, by
/// package name.
#[derive(Debug)]
pub struct DeclarationBundle {
    pub root: TypeRegistryDeclaration,
    pub dependencies: StrMap<TypeRegistryDeclaration>,
}

/// The versioned form in which declarations are stored.
#[derive(Debug)]
pub enum DeclarationVersion {
    V1(TypeRegistryDeclaration),
}

/// The name under which a declared builtin is stored: its variant name in
/// lower case.
pub open spec fn declared_builtin_name(b: Builtin) -> Seq<char> {
    match b {
        Builtin::I8 => "i8"@,
        Builtin::I16 => "i16"@,
        Builtin::I32 => "i32"@,
        Builtin::I64 => "i64"@,
        Builtin::U8 => "u8"@,
        Builtin::U16 => "u16"@,
        Builtin::U32 => "u32"@,
        Builtin::U64 => "u64"@,
        Builtin::Usize => "usize"@,
        Builtin::F16 => "f16"@,
        Builtin::F32 => "f32"@,
        Builtin::F64 => "f64"@,
        Builtin::Bool => "bool"@,
        Builtin::Str => "str"@,
        Builtin::DateTime => "datetime"@,
        Builtin::Complex => "complex"@,
        Builtin::Binary => "binary"@,
        Builtin::Base64 => "base64"@,
        Builtin::Never => "never"@,
    }
}

/// A written builtin is declared as the builtin stored under the very
/// keyword it was written with.
pub proof fn law_declared_builtin_keeps_its_name(b: syntax::Builtin)
    ensures
        declared_builtin_name(builtin_of(b)) == syntax::builtin_keyword(b),
{
}

/// Two different written builtins are declared as different builtins.
pub proof fn law_declared_builtins_are_distinct(a: syntax::Builtin, b: syntax::Builtin)
    requires
        a != b,
    ensures
        builtin_of(a) != builtin_of(b),
{
}

} // verus!
