//! Declaring a registered item: its kind, name, version and members, each
//! member's type declared as the namespace sees it.
use vstd::prelude::*;
use crate::ast::{CommentStream, AnonymousOneOf, Enum, EnumKind, EnumValue, EnumVariant, Type, Variant};
use crate::common::{Definition, FromNamedSource, NamespaceCtx};
use crate::convert::{
    ConvertError, arg_of, comment_texts, arg_types, ast_refs, convert_anonymous_oneof_variants, convert_ast_type, convert_failure,
    convert_operation_args, convert_operation_return_type, convert_struct_fields, converts_to, field_of, return_failure,
    return_refs, returns_to, types_failure, types_refs, variant_name, variant_types, written_args,
};
use crate::declare::{
    DeclComment, DeclEnum, extract_comments, DeclEnumDef, DeclError, DeclIntVariant, DeclOneOf, DeclOneOfVariant, DeclOperation,
    DeclStringVariant, DeclStruct, DeclTypeAlias, Meta, TypeDefinition,
};
use crate::defs::Spanned;
use crate::ordmap::StrMap;
use crate::pathord::PathV;
use crate::paths::{NamedItemContext, RefContextV, RefOrItemContext};
use crate::refset::RefSet;
use crate::toks::strings_view;

verus! {

/// The texts of the comment streams of an item, in order.
pub open spec fn item_comment_texts(v: Seq<CommentStream>) -> Seq<Seq<char>>
    decreases v.len(),
{
    if v.len() == 0 {
        Seq::empty()
    } else {
        item_comment_texts(v.drop_last()) + comment_texts(v.last())
    }
}

/// The comments of a variant, in order.
pub(crate) fn variant_comments(c: &CommentStream) -> (r: DeclComment)
    ensures
        strings_view(r.comments@) == comment_texts(*c),
{
    let r = extract_comments(c);
    assert(strings_view(r.comments@) =~= comment_texts(*c));
    r
}

/// The comments of an item: those of each of its comment streams, in order.
fn extract_item_comments(v: &Vec<CommentStream>) -> (r: DeclComment)
    ensures
        strings_view(r.comments@) == item_comment_texts(v@),
{
    let mut out = DeclComment::new();
    let mut k: usize = 0;
    while k < v.len()
        invariant
            k <= v@.len(),
            strings_view(out.comments@) == item_comment_texts(v@.subrange(0, k as int)),
        decreases v@.len() - k,
    {
        let c = variant_comments(&v[k]);
        let ghost before = out.comments@;
        out.merge(c);
        proof {
            assert(v@.subrange(0, k + 1).drop_last() =~= v@.subrange(0, k as int));
            assert(strings_view(out.comments@) =~= strings_view(before) + strings_view(c.comments@));
        }
        k += 1;
    }
    assert(v@.subrange(0, v@.len() as int) =~= v@);
    out
}

/// The number an int enum's variant declares: the number written, as a
/// 32-bit unsigned number, else 0.
pub open spec fn int_value(v: EnumVariant) -> u32 {
    match v.value {
        Some(EnumValue::Int(i)) => i.value as u32,
        _ => 0,
    }
}

/// The text a string enum's variant declares: the text written, else none.
pub open spec fn str_value(v: EnumVariant) -> Seq<char> {
    match v.value {
        Some(EnumValue::Str(s)) => s.value@,
        _ => Seq::empty(),
    }
}

/// The declared enum of `e`: of its kind, each variant with its name and
/// value and comments.
pub open spec fn enum_declared(e: Enum, d: DeclEnum) -> bool {
    match e.kind {
        EnumKind::Int => d matches DeclEnum::Int(vs) && vs@.len() == e.variants@.len() && forall|i: int| 0 <= i < vs@.len() ==> {
            &&& (#[trigger] vs@[i]).name@ == e.variants@[i].value.name.value.0@
            &&& vs@[i].value == int_value(e.variants@[i].value)
            &&& strings_view(vs@[i].comments.comments@) == comment_texts(e.variants@[i].value.comments)
        },
        EnumKind::Str => d matches DeclEnum::String(vs) && vs@.len() == e.variants@.len() && forall|i: int| 0 <= i < vs@.len() ==> {
            &&& (#[trigger] vs@[i]).name@ == e.variants@[i].value.name.value.0@
            &&& vs@[i].value@ == str_value(e.variants@[i].value)
            &&& strings_view(vs@[i].comments.comments@) == comment_texts(e.variants@[i].value.comments)
        },
    }
}

/// Declares an enum: its kind, and each variant with its value.
pub fn convert_enum(e: &Enum) -> (r: DeclEnum)
    ensures
        enum_declared(*e, r),
{
    match e.kind {
        EnumKind::Int => {
            let mut out: Vec<DeclIntVariant> = Vec::new();
            let mut i: usize = 0;
            while i < e.variants.len()
                invariant
                    i <= e.variants@.len(),
                    out@.len() == i,
                    forall|j: int| 0 <= j < i ==> {
                        &&& (#[trigger] out@[j]).name@ == e.variants@[j].value.name.value.0@
                        &&& out@[j].value == int_value(e.variants@[j].value)
                        &&& strings_view(out@[j].comments.comments@) == comment_texts(e.variants@[j].value.comments)
                    },
                decreases e.variants@.len() - i,
            {
                let v = &e.variants[i].value;
                let value: u32 = match &v.value {
                    Some(EnumValue::Int(n)) => n.value as u32,
                    _ => 0,
                };
                out.push(DeclIntVariant { name: v.name.value.0.clone(), value, comments: variant_comments(&v.comments) });
                i += 1;
            }
            DeclEnum::Int(out)
        },
        EnumKind::Str => {
            let mut out: Vec<DeclStringVariant> = Vec::new();
            let mut i: usize = 0;
            while i < e.variants.len()
                invariant
                    i <= e.variants@.len(),
                    out@.len() == i,
                    forall|j: int| 0 <= j < i ==> {
                        &&& (#[trigger] out@[j]).name@ == e.variants@[j].value.name.value.0@
                        &&& out@[j].value@ == str_value(e.variants@[j].value)
                        &&& strings_view(out@[j].comments.comments@) == comment_texts(e.variants@[j].value.comments)
                    },
                decreases e.variants@.len() - i,
            {
                let v = &e.variants[i].value;
                let value: String = match &v.value {
                    Some(EnumValue::Str(s)) => s.value.clone(),
                    _ => String::new(),
                };
                out.push(DeclStringVariant { name: v.name.value.0.clone(), value, comments: variant_comments(&v.comments) });
                i += 1;
            }
            DeclEnum::String(out)
        },
    }
}

/// Why a named variant cannot be declared: only a variant that wraps a
/// type can.
pub open spec fn variant_failure(v: Variant) -> Option<Seq<char>> {
    match v {
        Variant::Tuple { inner, .. } => convert_failure(inner),
        _ => Some("Unexpected anonymous struct in oneof variant"@),
    }
}

/// The items of other packages a named variant refers to.
pub open spec fn variant_refs(v: Variant, ctx: RefContextV, imps: Seq<FromNamedSource<RefOrItemContext>>) -> Set<PathV> {
    match v {
        Variant::Tuple { inner, .. } => ast_refs(inner, ctx, imps),
        _ => Set::empty(),
    }
}

/// The first variant that cannot be declared, by why.
pub open spec fn variants_failure(vs: Seq<Spanned<Variant>>) -> Option<Seq<char>>
    decreases vs.len(),
{
    if vs.len() == 0 {
        None
    } else {
        match variants_failure(vs.drop_last()) {
            Some(m) => Some(m),
            None => variant_failure(vs.last().value),
        }
    }
}

/// The items of other packages the variants refer to, up to and including
/// the first that cannot be declared.
pub open spec fn variants_refs(vs: Seq<Spanned<Variant>>, ctx: RefContextV, imps: Seq<FromNamedSource<RefOrItemContext>>) -> Set<PathV>
    decreases vs.len(),
{
    if vs.len() == 0 {
        Set::empty()
    } else if variants_failure(vs.drop_last()) is Some {
        variants_refs(vs.drop_last(), ctx, imps)
    } else {
        variants_refs(vs.drop_last(), ctx, imps).union(variant_refs(vs.last().value, ctx, imps))
    }
}

/// The declared variant of a named variant: its name, its declared type,
/// its comments.
pub open spec fn variant_declared(v: Variant, ctx: RefContextV, imps: Seq<FromNamedSource<RefOrItemContext>>, d: DeclOneOfVariant) -> bool {
    &&& v matches Variant::Tuple { comments, name, inner }
    &&& d.name@ == name.value.0@
    &&& converts_to(inner, ctx, imps, d.ty)
    &&& strings_view(d.comments.comments@) == comment_texts(comments)
}

proof fn lemma_variants_stop(vs: Seq<Spanned<Variant>>, n: int, ctx: RefContextV, imps: Seq<FromNamedSource<RefOrItemContext>>)
    requires
        0 <= n <= vs.len(),
        variants_failure(vs.subrange(0, n)) is Some,
    ensures
        variants_failure(vs) == variants_failure(vs.subrange(0, n)),
        variants_refs(vs, ctx, imps) == variants_refs(vs.subrange(0, n), ctx, imps),
    decreases vs.len() - n,
{
    if n < vs.len() {
        assert(vs.subrange(0, n + 1).drop_last() =~= vs.subrange(0, n));
        lemma_variants_stop(vs, n + 1, ctx, imps);
    } else {
        assert(vs.subrange(0, n) =~= vs);
    }
}

/// Declares the variants of a named oneof or error, in order: each must
/// wrap a type.
pub fn convert_oneof_variants(variants: &Vec<Spanned<Variant>>, ns: &NamespaceCtx, refs: &mut RefSet) -> (r: Result<Vec<DeclOneOfVariant>, ConvertError>)
    requires
        old(refs).wf(),
    ensures
        final(refs).wf(),
        final(refs).set() == old(refs).set().union(variants_refs(variants@, ns.ctx@, ns.imports@)),
        match r {
            Ok(out) => {
                &&& variants_failure(variants@) is None
                &&& out@.len() == variants@.len()
                &&& forall|i: int| 0 <= i < out@.len() ==> #[trigger] variant_declared(variants@[i].value, ns.ctx@, ns.imports@, out@[i])
            },
            Err(e) => variants_failure(variants@) == Some(e.message@),
        },
{
    let ghost vs = variants@;
    let ghost s0 = refs.set();
    let mut out: Vec<DeclOneOfVariant> = Vec::new();
    let mut i: usize = 0;
    while i < variants.len()
        invariant
            i <= vs.len(),
            vs == variants@,
            s0 == old(refs).set(),
            refs.wf(),
            refs.set() == s0.union(variants_refs(vs.subrange(0, i as int), ns.ctx@, ns.imports@)),
            variants_failure(vs.subrange(0, i as int)) is None,
            out@.len() == i,
            forall|j: int| 0 <= j < i ==> #[trigger] variant_declared(vs[j].value, ns.ctx@, ns.imports@, out@[j]),
        decreases vs.len() - i,
    {
        proof {
            assert(vs.subrange(0, i + 1).drop_last() =~= vs.subrange(0, i as int));
        }
        match &variants[i].value {
            Variant::Tuple { comments, name, inner } => {
                let ghost before = refs.set();
                let t = convert_ast_type(inner, ns, refs);
                proof {
                    assert(refs.set() =~= s0.union(variants_refs(vs.subrange(0, i + 1), ns.ctx@, ns.imports@)));
                }
                match t {
                    Ok(ty) => {
                        out.push(DeclOneOfVariant { name: name.value.0.clone(), ty, comments: variant_comments(comments) });
                    },
                    Err(e) => {
                        proof { lemma_variants_stop(vs, i + 1, ns.ctx@, ns.imports@); }
                        return Err(e);
                    },
                }
            },
            _ => {
                proof {
                    assert(refs.set() =~= s0.union(variants_refs(vs.subrange(0, i + 1), ns.ctx@, ns.imports@)));
                    lemma_variants_stop(vs, i + 1, ns.ctx@, ns.imports@);
                }
                return Err(ConvertError { message: String::from_str("Unexpected anonymous struct in oneof variant") });
            },
        }
        i += 1;
    }
    assert(vs.subrange(0, vs.len() as int) =~= vs);
    Ok(out)
}


/// The version an item is declared with: the one recorded for its name,
/// else 1.
pub open spec fn item_meta(versions: StrMap<Spanned<u32>>, name: Seq<char>) -> Meta {
    match versions.spec_get(name) {
        Some(v) => Meta { version: v.value },
        None => Meta { version: 1 },
    }
}

/// Why the item `d` named `name` cannot be declared: the first member
/// whose type cannot be.
pub open spec fn def_failure(d: Definition, name: Seq<char>, errors: StrMap<Spanned<String>>) -> Option<Seq<char>> {
    match d {
        Definition::Struct(x) => types_failure(arg_types(x.def.value.args@)),
        Definition::Enum(_) => None,
        Definition::OneOf(x) => variants_failure(x.def.value.variants@),
        Definition::Error(x) => variants_failure(x.def.value.variants@),
        Definition::TypeAlias(x) => match x.def.value.ty.value {
            Type::OneOf { ty } => types_failure(variant_types(ty.value.variants@)),
            t => convert_failure(t),
        },
        Definition::Operation(x) => match types_failure(arg_types(written_args(x.def.value.args))) {
            Some(m) => Some(m),
            None => return_failure(x.def.value.return_type.value, name, errors),
        },
    }
}

/// The items of other packages that declaring `d` refers to, up to the
/// first member that cannot be declared.
pub open spec fn def_refs(d: Definition, ctx: RefContextV, imps: Seq<FromNamedSource<RefOrItemContext>>) -> Set<PathV> {
    match d {
        Definition::Struct(x) => types_refs(arg_types(x.def.value.args@), ctx, imps),
        Definition::Enum(_) => Set::empty(),
        Definition::OneOf(x) => variants_refs(x.def.value.variants@, ctx, imps),
        Definition::Error(x) => variants_refs(x.def.value.variants@, ctx, imps),
        Definition::TypeAlias(x) => match x.def.value.ty.value {
            Type::OneOf { ty } => types_refs(variant_types(ty.value.variants@), ctx, imps),
            t => ast_refs(t, ctx, imps),
        },
        Definition::Operation(x) => if types_failure(arg_types(written_args(x.def.value.args))) is Some {
            types_refs(arg_types(written_args(x.def.value.args)), ctx, imps)
        } else {
            types_refs(arg_types(written_args(x.def.value.args)), ctx, imps).union(return_refs(x.def.value.return_type.value, ctx, imps))
        },
    }
}

/// `out` declares the variants of a named oneof or error.
pub open spec fn variants_declared(vs: Seq<Spanned<Variant>>, ctx: RefContextV, imps: Seq<FromNamedSource<RefOrItemContext>>, out: Seq<DeclOneOfVariant>) -> bool {
    &&& out.len() == vs.len()
    &&& forall|i: int| 0 <= i < out.len() ==> #[trigger] variant_declared(vs[i].value, ctx, imps, out[i])
}

/// `t` declares the item `d` named `name` with the version `meta`: of the
/// same kind, with its members declared, and its comments.
pub open spec fn declared_as(
    d: Definition,
    name: Seq<char>,
    meta: Meta,
    ctx: RefContextV,
    imps: Seq<FromNamedSource<RefOrItemContext>>,
    errors: StrMap<Spanned<String>>,
    t: TypeDefinition,
) -> bool {
    match d {
        Definition::Struct(x) => t matches TypeDefinition::Struct(s) && {
            &&& s.name@ == name && s.meta == meta && strings_view(s.comments.comments@) == item_comment_texts(x.comments@)
            &&& s.fields@.len() == x.def.value.args@.len()
            &&& forall|i: int| 0 <= i < s.fields@.len() ==> #[trigger] field_of(x.def.value.args@[i].value, ctx, imps, s.fields@[i])
        },
        Definition::Enum(x) => t matches TypeDefinition::Enum(s) && {
            &&& s.name@ == name && s.meta == meta && strings_view(s.comments.comments@) == item_comment_texts(x.comments@)
            &&& enum_declared(x.def.value, s.enum_def)
        },
        Definition::OneOf(x) => t matches TypeDefinition::OneOf(s) && {
            &&& s.name@ == name && s.meta == meta && strings_view(s.comments.comments@) == item_comment_texts(x.comments@)
            &&& variants_declared(x.def.value.variants@, ctx, imps, s.variants@)
        },
        Definition::Error(x) => t matches TypeDefinition::Error(s) && {
            &&& s.name@ == name && s.meta == meta && strings_view(s.comments.comments@) == item_comment_texts(x.comments@)
            &&& variants_declared(x.def.value.variants@, ctx, imps, s.variants@)
        },
        Definition::TypeAlias(x) => match x.def.value.ty.value {
            Type::OneOf { ty } => t matches TypeDefinition::OneOf(s) && {
                &&& s.name@ == name && s.meta == meta && strings_view(s.comments.comments@) == item_comment_texts(x.comments@)
                &&& s.variants@.len() == ty.value.variants@.len()
                &&& forall|i: int| 0 <= i < s.variants@.len() ==> {
                    &&& (#[trigger] s.variants@[i]).name@ == variant_name(ty.value.variants@[i].value, i as nat)
                    &&& converts_to(ty.value.variants@[i].value, ctx, imps, s.variants@[i].ty)
                    &&& s.variants@[i].comments.comments@.len() == 0
                }
            },
            target => t matches TypeDefinition::TypeAlias(s) && {
                &&& s.name@ == name && s.meta == meta && strings_view(s.comments.comments@) == item_comment_texts(x.comments@)
                &&& converts_to(target, ctx, imps, s.target)
            },
        },
        Definition::Operation(x) => t matches TypeDefinition::Operation(s) && {
            &&& s.name@ == name && s.meta == meta && strings_view(s.comments.comments@) == item_comment_texts(x.comments@)
            &&& s.args@.len() == written_args(x.def.value.args).len()
            &&& (forall|i: int| 0 <= i < s.args@.len() ==> #[trigger] arg_of(written_args(x.def.value.args)[i].value, ctx, imps, s.args@[i]))
            &&& returns_to(x.def.value.return_type.value, name, ctx, imps, errors, s.return_type)
        },
    }
}

/// Declares the registered item `def` under the name of `named`, with the
/// version recorded for it in `versions` (else 1), adding to `refs` the
/// items of other packages it refers to. An alias of an anonymous oneof is
/// declared as a oneof whose variants are named after their types.
pub fn convert_type(
    named: &NamedItemContext,
    def: &Definition,
    ns: &NamespaceCtx,
    versions: &StrMap<Spanned<u32>>,
    errors: &StrMap<Spanned<String>>,
    refs: &mut RefSet,
) -> (r: Result<TypeDefinition, ConvertError>)
    requires
        old(refs).wf(),
        versions.wf(),
        errors.wf(),
    ensures
        final(refs).wf(),
        final(refs).set() == old(refs).set().union(def_refs(*def, ns.ctx@, ns.imports@)),
        match r {
            Ok(t) => def_failure(*def, named.name.value.0@, *errors) is None
                && declared_as(*def, named.name.value.0@, item_meta(*versions, named.name.value.0@), ns.ctx@, ns.imports@, *errors, t),
            Err(e) => def_failure(*def, named.name.value.0@, *errors) == Some(e.message@),
        },
{
    let item_name = named.name.value.0.clone();
    let meta = match Meta::from_resolved_version(item_name.as_str(), versions) {
        Some(m) => m,
        None => Meta::new(1),
    };
    match def {
        Definition::Struct(x) => {
            let fields = convert_struct_fields(&x.def.value.args, ns, refs)?;
            Ok(TypeDefinition::Struct(DeclStruct { name: item_name, fields, meta, comments: extract_item_comments(&x.comments) }))
        },
        Definition::Enum(x) => {
            let enum_def = convert_enum(&x.def.value);
            proof { assert(refs.set() =~= old(refs).set().union(Set::empty())); }
            Ok(TypeDefinition::Enum(DeclEnumDef { name: item_name, enum_def, meta, comments: extract_item_comments(&x.comments) }))
        },
        Definition::OneOf(x) => {
            let variants = convert_oneof_variants(&x.def.value.variants, ns, refs)?;
            Ok(TypeDefinition::OneOf(DeclOneOf { name: item_name, variants, meta, comments: extract_item_comments(&x.comments) }))
        },
        Definition::Error(x) => {
            let variants = convert_oneof_variants(&x.def.value.variants, ns, refs)?;
            Ok(TypeDefinition::Error(DeclError { name: item_name, variants, meta, comments: extract_item_comments(&x.comments) }))
        },
        Definition::TypeAlias(x) => {
            match &x.def.value.ty.value {
                Type::OneOf { ty } => {
                    let variants = convert_anonymous_oneof_variants(&ty.value, ns, refs)?;
                    Ok(TypeDefinition::OneOf(DeclOneOf { name: item_name, variants, meta, comments: extract_item_comments(&x.comments) }))
                },
                target => {
                    let target = convert_ast_type(target, ns, refs)?;
                    Ok(TypeDefinition::TypeAlias(DeclTypeAlias { name: item_name, target, meta, comments: extract_item_comments(&x.comments) }))
                },
            }
        },
        Definition::Operation(x) => {
            let ghost s0 = refs.set();
            let args = convert_operation_args(&x.def.value.args, ns, refs)?;
            let ghost s1 = refs.set();
            let return_type = convert_operation_return_type(&x.def.value.return_type.value, &item_name, ns, errors, refs)?;
            proof { assert(refs.set() =~= s0.union(def_refs(*def, ns.ctx@, ns.imports@))); }
            Ok(TypeDefinition::Operation(DeclOperation { name: item_name, args, return_type, meta, comments: extract_item_comments(&x.comments) }))
        },
    }
}

} // verus!
