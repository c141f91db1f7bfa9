//! Turning written types into declared ones: references resolved through a
//! namespace's imports, builtins and arrays carried over, and names made up
//! for the variants of anonymous oneofs.
use vstd::prelude::*;
use crate::ast::{self as syntax, AnonymousOneOf, Arg, Array, CommentAst, CommentStream, PathOrIdent, PathOrIdentV, Sep, Type, path_or_ident_view};
use crate::common::{FromNamedSource, NamespaceCtx};
use crate::declare::{DeclArg, DeclComment, DeclField, DeclOneOfVariant, DeclType, Builtin, builtin_of, type_refs, external_ref, extract_comments, add_if_external};
use crate::defs::Spanned;
use crate::ordmap::StrMap;
use crate::pathord::PathV;
use crate::paths::{RefContextV, RefOrItemContext, clone_strings};
use crate::refset::{DeclNamedItemContext, DeclRefContext, RefSet};
use crate::text::{append_string, push_nat_decimal, str_eq, nat_decimal};
use crate::toks::{IdentToken, strings_view};

verus! {

/// What an import makes of the identifier `id`: an import of a namespace
/// path ending in `id` names the item `id` in the namespace before it; an
/// import of an item named `id` names that item.
pub open spec fn import_names(v: RefOrItemContext, id: Seq<char>) -> Option<PathV> {
    match v {
        RefOrItemContext::Ref(c) => if c@.namespace.len() > 0 && c@.namespace.last() == id {
            Some((c@.package, c@.namespace.drop_last(), id))
        } else {
            None
        },
        RefOrItemContext::Item(i) => if i@.name == id {
            Some((i@.context.package, i@.context.namespace, id))
        } else {
            None
        },
    }
}

/// What the first import that names `id` makes of it.
pub open spec fn imported_as(imps: Seq<FromNamedSource<RefOrItemContext>>, id: Seq<char>) -> Option<PathV>
    decreases imps.len(),
{
    if imps.len() == 0 {
        None
    } else {
        match imported_as(imps.drop_last(), id) {
            Some(p) => Some(p),
            None => import_names(imps.last().value, id),
        }
    }
}

/// The item a reference names from inside the namespace `ctx`: an
/// identifier as its imports give it, or else in `ctx` itself; a path as
/// package, namespaces and name (a single segment is package and name at
/// once, in the namespaces of `ctx`).
pub open spec fn resolve_ref(p: PathOrIdentV, ctx: RefContextV, imps: Seq<FromNamedSource<RefOrItemContext>>) -> PathV {
    match p {
        PathOrIdentV::Ident(id) => match imported_as(imps, id) {
            Some(t) => t,
            None => (ctx.package, ctx.namespace, id),
        },
        PathOrIdentV::Path(segs) => if segs.len() == 0 {
            (Seq::empty(), ctx.namespace, Seq::empty())
        } else if segs.len() == 1 {
            (segs[0], ctx.namespace, segs[0])
        } else {
            (segs[0], segs.subrange(1, segs.len() - 1), segs.last())
        },
    }
}

/// The declared item a reference names from inside the namespace `ns`.
pub fn resolve_path_or_ident(path_or_ident: &PathOrIdent, ns: &NamespaceCtx) -> (r: DeclNamedItemContext)
    ensures
        r@ == resolve_ref(path_or_ident_view(*path_or_ident), ns.ctx@, ns.imports@),
{
    match path_or_ident {
        PathOrIdent::Ident(ident) => {
            let id = ident.value.borrow_string();
            let ghost imps = ns.imports@;
            let mut k: usize = 0;
            while k < ns.imports.len()
                invariant
                    imps == ns.imports@,
                    *path_or_ident == PathOrIdent::Ident(*ident),
                    *id == ident.value.0,
                    k <= imps.len(),
                    imported_as(imps.take(k as int), id@) is None,
                decreases imps.len() - k,
            {
                assert(imps.take(k + 1).drop_last() =~= imps.take(k as int));
                assert(imps.take(k + 1).last() == imps[k as int]);
                match &ns.imports[k].value {
                    RefOrItemContext::Ref(ref_ctx) => {
                        let n = ref_ctx.namespace.len();
                        if n > 0 && str_eq(&ref_ctx.namespace[n - 1], id) {
                            let mut namespace = clone_strings(&ref_ctx.namespace);
                            let ghost full = strings_view(namespace@);
                            assert(full.len() == namespace@.len());
                            assert(strings_view(ref_ctx.namespace@)[n - 1] == ref_ctx.namespace@[n - 1]@);
                            let ghost before_pop = namespace@;
                            let last = namespace.pop().unwrap();
                            assert(strings_view(namespace@) =~= full.drop_last());
                            assert(last == before_pop[n - 1]);
                            assert(full[n - 1] == before_pop[n - 1]@);
                            assert(last@ == id@);
                            let r = DeclNamedItemContext {
                                context: DeclRefContext { package: ref_ctx.package.clone(), namespace },
                                name: last,
                            };
                            proof {
                                assert(ref_ctx@.namespace == full);
                                assert(import_names(imps[k as int].value, id@) == Some(r@));
                                assert(imported_as(imps.take(k + 1), id@) == Some(r@));
                                lemma_imported_as_prefix(imps, id@, (k + 1) as int);
                            }
                            return r;
                        }
                    },
                    RefOrItemContext::Item(item_ctx) => {
                        if str_eq(item_ctx.name.value.borrow_string(), id) {
                            proof {
                                lemma_imported_as_prefix(imps, id@, (k + 1) as int);
                            }
                            return DeclNamedItemContext::from_named_item_context(item_ctx);
                        }
                    },
                }
                k += 1;
            }
            assert(imps.take(k as int) =~= imps);
            let item_ctx = ns.ctx.item(Spanned { span: ident.span, value: IdentToken::new(id.clone()) });
            DeclNamedItemContext::from_named_item_context(&item_ctx)
        },
        PathOrIdent::Path(path) => {
            let parts = path.value.segments();
            let ghost segs = strings_view(parts@);
            if parts.len() == 0 {
                let r = DeclNamedItemContext {
                    context: DeclRefContext { package: String::new(), namespace: clone_strings(&ns.ctx.namespace) },
                    name: String::new(),
                };
                assert(r@.0 =~= Seq::<char>::empty());
                r
            } else if parts.len() == 1 {
                DeclNamedItemContext {
                    context: DeclRefContext { package: parts[0].clone(), namespace: clone_strings(&ns.ctx.namespace) },
                    name: parts[0].clone(),
                }
            } else {
                let n = parts.len();
                let mut namespace: Vec<String> = Vec::new();
                let mut k: usize = 1;
                while k < n - 1
                    invariant
                        n == parts@.len(),
                        segs == strings_view(parts@),
                        n >= 2,
                        1 <= k <= n - 1,
                        strings_view(namespace@) == segs.subrange(1, k as int),
                    decreases n - 1 - k,
                {
                    let ghost before = strings_view(namespace@);
                    namespace.push(parts[k].clone());
                    assert(strings_view(namespace@) =~= before.push(segs[k as int]));
                    assert(segs.subrange(1, k + 1) =~= segs.subrange(1, k as int).push(segs[k as int]));
                    k += 1;
                }
                DeclNamedItemContext {
                    context: DeclRefContext { package: parts[0].clone(), namespace },
                    name: parts[n - 1].clone(),
                }
            }
        },
    }
}

/// Once an import among the first `k` names `id`, the first one that does
/// decides for all of them.
proof fn lemma_imported_as_prefix(imps: Seq<FromNamedSource<RefOrItemContext>>, id: Seq<char>, k: int)
    requires
        0 <= k <= imps.len(),
        imported_as(imps.take(k), id) is Some,
    ensures
        imported_as(imps, id) == imported_as(imps.take(k), id),
    decreases imps.len() - k,
{
    if k < imps.len() {
        assert(imps.take(k + 1).drop_last() =~= imps.take(k));
        lemma_imported_as_prefix(imps, id, k + 1);
    } else {
        assert(imps.take(k) =~= imps);
    }
}

/// The name a builtin gives the oneof variant that holds it.
pub open spec fn builtin_variant_name(b: syntax::Builtin) -> Seq<char> {
    match b {
        syntax::Builtin::I8 => "I8"@,
        syntax::Builtin::I16 => "I16"@,
        syntax::Builtin::I32 => "I32"@,
        syntax::Builtin::I64 => "I64"@,
        syntax::Builtin::U8 => "U8"@,
        syntax::Builtin::U16 => "U16"@,
        syntax::Builtin::U32 => "U32"@,
        syntax::Builtin::U64 => "U64"@,
        syntax::Builtin::Usize => "Usize"@,
        syntax::Builtin::F16 => "F16"@,
        syntax::Builtin::F32 => "F32"@,
        syntax::Builtin::F64 => "F64"@,
        syntax::Builtin::Bool => "Bool"@,
        syntax::Builtin::Str => "Str"@,
        syntax::Builtin::DateTime => "DateTime"@,
        syntax::Builtin::Complex => "Complex"@,
        syntax::Builtin::Binary => "Binary"@,
        syntax::Builtin::Base64 => "Base64"@,
        syntax::Builtin::Never => "Never"@,
    }
}

/// The name of the variant at position `idx` of an anonymous oneof that
/// holds `t`: the builtin's name, the referenced name (the last segment of
/// a path), `Array` or `Variant` followed by the position, and for a type
/// in parentheses that of the type inside.
pub open spec fn variant_name(t: Type, idx: nat) -> Seq<char>
    decreases t,
{
    match t {
        Type::Builtin { ty } => builtin_variant_name(ty.value),
        Type::Ident { to } => match path_or_ident_view(to) {
            PathOrIdentV::Ident(id) => id,
            PathOrIdentV::Path(segs) => if segs.len() > 0 { segs.last() } else { "Variant"@ + nat_decimal(idx) },
        },
        Type::Array { .. } => "Array"@ + nat_decimal(idx),
        Type::Paren { ty } => variant_name(ty.value, idx),
        _ => "Variant"@ + nat_decimal(idx),
    }
}

fn builtin_name(b: &syntax::Builtin) -> (r: String)
    ensures
        r@ == builtin_variant_name(*b),
{
    let s = match b {
        syntax::Builtin::I8 => "I8",
        syntax::Builtin::I16 => "I16",
        syntax::Builtin::I32 => "I32",
        syntax::Builtin::I64 => "I64",
        syntax::Builtin::U8 => "U8",
        syntax::Builtin::U16 => "U16",
        syntax::Builtin::U32 => "U32",
        syntax::Builtin::U64 => "U64",
        syntax::Builtin::Usize => "Usize",
        syntax::Builtin::F16 => "F16",
        syntax::Builtin::F32 => "F32",
        syntax::Builtin::F64 => "F64",
        syntax::Builtin::Bool => "Bool",
        syntax::Builtin::Str => "Str",
        syntax::Builtin::DateTime => "DateTime",
        syntax::Builtin::Complex => "Complex",
        syntax::Builtin::Binary => "Binary",
        syntax::Builtin::Base64 => "Base64",
        syntax::Builtin::Never => "Never",
    };
    String::from_str(s)
}

/// `prefix` followed by the decimal numeral of `idx`.
fn numbered(prefix: &str, idx: usize) -> (r: String)
    ensures
        r@ == prefix@ + nat_decimal(idx as nat),
{
    let mut s = String::from_str(prefix);
    push_nat_decimal(&mut s, idx as u64);
    s
}

/// The name of the variant at position `idx` of an anonymous oneof that
/// holds `ty`.
pub fn generate_variant_name_from_type(ty: &Type, idx: usize) -> (r: String)
    ensures
        r@ == variant_name(*ty, idx as nat),
    decreases ty,
{
    match ty {
        Type::Builtin { ty } => builtin_name(&ty.value),
        Type::Ident { to } => match to {
            PathOrIdent::Ident(ident) => ident.value.borrow_string().clone(),
            PathOrIdent::Path(path) => {
                let segs = path.value.segments();
                if segs.len() > 0 {
                    segs[segs.len() - 1].clone()
                } else {
                    numbered("Variant", idx)
                }
            },
        },
        Type::Array { .. } => numbered("Array", idx),
        Type::Paren { ty } => generate_variant_name_from_type(&ty.value, idx),
        _ => numbered("Variant", idx),
    }
}

/// Why a written type has no declared form.
#[derive(Debug)]
pub struct ConvertError {
    pub message: String,
}

/// Why `t` cannot be declared, if it cannot: a result type outside an
/// operation's return, or an anonymous union, struct or oneof (or a type
/// expression) where a declared type is due.
pub open spec fn convert_failure(t: Type) -> Option<Seq<char>>
    decreases t,
{
    match t {
        Type::Builtin { .. } => None,
        Type::Ident { .. } => None,
        Type::Array { ty } => match ty.value {
            Array::Unsized { ty: inner } => convert_failure(inner.value),
            Array::Sized { ty: inner, .. } => convert_failure(inner.value),
        },
        Type::Paren { ty } => convert_failure(ty.value),
        Type::Result { .. } => Some("Result type conversion requires operation context"@),
        Type::Union { .. } => Some("Unexpected anonymous union in declaration extraction"@),
        Type::UnionOr { .. } => Some("Unexpected anonymous union in declaration extraction"@),
        Type::Struct { .. } => Some("Unexpected anonymous struct in declaration extraction"@),
        Type::OneOf { .. } => Some("Unexpected anonymous oneof in declaration extraction"@),
        Type::TypeExpr { .. } => Some("Unexpected type expression in declaration extraction"@),
    }
}

/// `d` is the declared form of `t` in the namespace `ctx` with imports
/// `imps`: builtins become declared builtins, references the items they
/// name, arrays and parentheses keep their shape.
pub open spec fn converts_to(t: Type, ctx: RefContextV, imps: Seq<FromNamedSource<RefOrItemContext>>, d: DeclType) -> bool
    decreases t,
{
    match t {
        Type::Builtin { ty } => d == DeclType::Builtin { ty: builtin_of(ty.value) },
        Type::Ident { to } => d matches DeclType::Named { reference } && reference@ == resolve_ref(path_or_ident_view(to), ctx, imps),
        Type::Array { ty } => match ty.value {
            Array::Unsized { ty: inner } => d matches DeclType::Array { element_type } && converts_to(inner.value, ctx, imps, *element_type),
            Array::Sized { ty: inner, size } => d matches DeclType::SizedArray { element_type, size: s }
                && s == size.value as u64 && converts_to(inner.value, ctx, imps, *element_type),
        },
        Type::Paren { ty } => d matches DeclType::Paren { inner_type } && converts_to(ty.value, ctx, imps, *inner_type),
        _ => false,
    }
}

/// The items of other packages that `t` refers to.
pub open spec fn ast_refs(t: Type, ctx: RefContextV, imps: Seq<FromNamedSource<RefOrItemContext>>) -> Set<PathV>
    decreases t,
{
    match t {
        Type::Ident { to } => external_ref(resolve_ref(path_or_ident_view(to), ctx, imps), ctx.package),
        Type::Array { ty } => match ty.value {
            Array::Unsized { ty: inner } => ast_refs(inner.value, ctx, imps),
            Array::Sized { ty: inner, .. } => ast_refs(inner.value, ctx, imps),
        },
        Type::Paren { ty } => ast_refs(ty.value, ctx, imps),
        _ => Set::empty(),
    }
}

fn failure(message: &str) -> (r: ConvertError)
    ensures
        r.message@ == message@,
{
    ConvertError { message: String::from_str(message) }
}

/// The declared form of `ty`, written in the namespace `ns`; the items of
/// other packages it refers to are added to `refs`.
pub fn convert_ast_type(ty: &Type, ns: &NamespaceCtx, refs: &mut RefSet) -> (r: Result<DeclType, ConvertError>)
    requires
        old(refs).wf(),
    ensures
        final(refs).wf(),
        final(refs).set() == old(refs).set().union(ast_refs(*ty, ns.ctx@, ns.imports@)),
        match r {
            Ok(d) => convert_failure(*ty) is None && converts_to(*ty, ns.ctx@, ns.imports@, d),
            Err(e) => convert_failure(*ty) == Some(e.message@),
        },
    decreases ty,
{
    match ty {
        Type::Builtin { ty } => {
            assert(old(refs).set() =~= old(refs).set().union(Set::empty()));
            Ok(DeclType::Builtin { ty: Builtin::from_ast_builtin(&ty.value) })
        },
        Type::Ident { to } => {
            let reference = resolve_path_or_ident(to, ns);
            add_if_external(&reference, ns.ctx.package.as_str(), refs);
            Ok(DeclType::Named { reference })
        },
        Type::Array { ty } => match &ty.value {
            Array::Unsized { ty: inner } => {
                let element_type = convert_ast_type(&inner.value, ns, refs)?;
                Ok(DeclType::Array { element_type: Box::new(element_type) })
            },
            Array::Sized { ty: inner, size } => {
                let element_type = convert_ast_type(&inner.value, ns, refs)?;
                let size_value = size.value as u64;
                Ok(DeclType::SizedArray { element_type: Box::new(element_type), size: size_value })
            },
        },
        Type::Paren { ty } => {
            let inner = convert_ast_type(&ty.value, ns, refs)?;
            Ok(DeclType::Paren { inner_type: Box::new(inner) })
        },
        Type::Result { .. } => {
            assert(old(refs).set() =~= old(refs).set().union(Set::empty()));
            Err(failure("Result type conversion requires operation context"))
        },
        Type::Union { .. } => {
            assert(old(refs).set() =~= old(refs).set().union(Set::empty()));
            Err(failure("Unexpected anonymous union in declaration extraction"))
        },
        Type::UnionOr { .. } => {
            assert(old(refs).set() =~= old(refs).set().union(Set::empty()));
            Err(failure("Unexpected anonymous union in declaration extraction"))
        },
        Type::Struct { .. } => {
            assert(old(refs).set() =~= old(refs).set().union(Set::empty()));
            Err(failure("Unexpected anonymous struct in declaration extraction"))
        },
        Type::OneOf { .. } => {
            assert(old(refs).set() =~= old(refs).set().union(Set::empty()));
            Err(failure("Unexpected anonymous oneof in declaration extraction"))
        },
        Type::TypeExpr { .. } => {
            assert(old(refs).set() =~= old(refs).set().union(Set::empty()));
            Err(failure("Unexpected type expression in declaration extraction"))
        },
    }
}

/// Why an operation's return type `t` cannot be declared: a result type
/// needs the error resolved for operation `op`.
pub open spec fn return_failure(t: Type, op: Seq<char>, errors: StrMap<Spanned<String>>) -> Option<Seq<char>> {
    match t {
        Type::Result { ty } => match convert_failure(ty.value) {
            Some(m) => Some(m),
            None => if errors.spec_get(op) is None {
                Some("Missing resolved error for operation "@ + op)
            } else {
                None
            },
        },
        _ => convert_failure(t),
    }
}

/// `d` is the declared return type of operation `op`: a result type pairs
/// its success type with the error resolved for the operation, named in
/// the operation's namespace.
pub open spec fn returns_to(
    t: Type,
    op: Seq<char>,
    ctx: RefContextV,
    imps: Seq<FromNamedSource<RefOrItemContext>>,
    errors: StrMap<Spanned<String>>,
    d: DeclType,
) -> bool {
    match t {
        Type::Result { ty } => d matches DeclType::Result { ok_type, error } && {
            &&& converts_to(ty.value, ctx, imps, *ok_type)
            &&& errors.spec_get(op) is Some
            &&& error@ == (ctx.package, ctx.namespace, errors.spec_get(op).unwrap().value@)
        },
        _ => converts_to(t, ctx, imps, d),
    }
}

/// The items of other packages an operation's return type refers to.
pub open spec fn return_refs(t: Type, ctx: RefContextV, imps: Seq<FromNamedSource<RefOrItemContext>>) -> Set<PathV> {
    match t {
        Type::Result { ty } => ast_refs(ty.value, ctx, imps),
        _ => ast_refs(t, ctx, imps),
    }
}

/// The declared return type of operation `operation_name`, with
/// `resolved_errors` giving the error of each fallible operation.
pub fn convert_operation_return_type(
    ast_type: &Type,
    operation_name: &String,
    ns: &NamespaceCtx,
    resolved_errors: &StrMap<Spanned<String>>,
    refs: &mut RefSet,
) -> (r: Result<DeclType, ConvertError>)
    requires
        old(refs).wf(),
        resolved_errors.wf(),
    ensures
        final(refs).wf(),
        final(refs).set() == old(refs).set().union(return_refs(*ast_type, ns.ctx@, ns.imports@)),
        match r {
            Ok(d) => return_failure(*ast_type, operation_name@, *resolved_errors) is None
                && returns_to(*ast_type, operation_name@, ns.ctx@, ns.imports@, *resolved_errors, d),
            Err(e) => return_failure(*ast_type, operation_name@, *resolved_errors) == Some(e.message@),
        },
{
    match ast_type {
        Type::Result { ty } => {
            let ok_type = convert_ast_type(&ty.value, ns, refs)?;
            match resolved_errors.get(operation_name) {
                Some(error_name) => {
                    let error_ctx = ns.ctx.item(Spanned::call_site(IdentToken::new(error_name.value.clone())));
                    let error = DeclNamedItemContext::from_named_item_context(&error_ctx);
                    let ghost before = refs.set();
                    add_if_external(&error, ns.ctx.package.as_str(), refs);
                    assert(refs.set() =~= before);
                    Ok(DeclType::Result { ok_type: Box::new(ok_type), error })
                },
                None => {
                    let mut message = String::from_str("Missing resolved error for operation ");
                    append_string(&mut message, operation_name);
                    Err(ConvertError { message })
                },
            }
        },
        _ => convert_ast_type(ast_type, ns, refs),
    }
}

/// The types of a list of fields.
pub open spec fn arg_types(args: Seq<Spanned<Arg>>) -> Seq<Type> {
    args.map_values(|a: Spanned<Arg>| a.value.typ)
}

/// Why one of `ts` cannot be declared: the reason of the first that cannot.
pub open spec fn types_failure(ts: Seq<Type>) -> Option<Seq<char>>
    decreases ts.len(),
{
    if ts.len() == 0 {
        None
    } else {
        match types_failure(ts.drop_last()) {
            Some(m) => Some(m),
            None => convert_failure(ts.last()),
        }
    }
}

/// The items of other packages that `ts` refer to, up to and including the
/// first that cannot be declared.
pub open spec fn types_refs(ts: Seq<Type>, ctx: RefContextV, imps: Seq<FromNamedSource<RefOrItemContext>>) -> Set<PathV>
    decreases ts.len(),
{
    if ts.len() == 0 {
        Set::empty()
    } else if types_failure(ts.drop_last()) is Some {
        types_refs(ts.drop_last(), ctx, imps)
    } else {
        types_refs(ts.drop_last(), ctx, imps).union(ast_refs(ts.last(), ctx, imps))
    }
}

proof fn lemma_types_failure_prefix(ts: Seq<Type>, k: int, ctx: RefContextV, imps: Seq<FromNamedSource<RefOrItemContext>>)
    requires
        0 <= k <= ts.len(),
        types_failure(ts.take(k)) is Some,
    ensures
        types_failure(ts) == types_failure(ts.take(k)),
        types_refs(ts, ctx, imps) == types_refs(ts.take(k), ctx, imps),
    decreases ts.len() - k,
{
    if k < ts.len() {
        assert(ts.take(k + 1).drop_last() =~= ts.take(k));
        lemma_types_failure_prefix(ts, k + 1, ctx, imps);
    } else {
        assert(ts.take(k) =~= ts);
    }
}

/// The texts of a comment stream, in order.
pub open spec fn comment_texts(cs: CommentStream) -> Seq<Seq<char>> {
    cs.comments@.map_values(|c: Spanned<CommentAst>| match c.value {
        CommentAst::SingleLine(s) => s@,
        CommentAst::MultiLine(s) => s@,
    })
}

/// `f` is the declared form of the field `a`.
pub open spec fn field_of(a: Arg, ctx: RefContextV, imps: Seq<FromNamedSource<RefOrItemContext>>, f: DeclField) -> bool {
    &&& f.name@ == a.name.value.0@
    &&& converts_to(a.typ, ctx, imps, f.ty)
    &&& f.default_value is None
    &&& f.optional == (a.sep is Optional)
    &&& strings_view(f.comments.comments@) == comment_texts(a.comments)
}

/// The declared fields of a struct: each field's name, declared type,
/// optionality and comments, with no default value.
pub fn convert_struct_fields(args: &Vec<Spanned<Arg>>, ns: &NamespaceCtx, refs: &mut RefSet) -> (r: Result<Vec<DeclField>, ConvertError>)
    requires
        old(refs).wf(),
    ensures
        final(refs).wf(),
        final(refs).set() == old(refs).set().union(types_refs(arg_types(args@), ns.ctx@, ns.imports@)),
        match r {
            Ok(fields) => {
                &&& types_failure(arg_types(args@)) is None
                &&& fields@.len() == args@.len()
                &&& forall|i: int| 0 <= i < args@.len() ==> #[trigger] field_of(args@[i].value, ns.ctx@, ns.imports@, fields@[i])
            },
            Err(e) => types_failure(arg_types(args@)) == Some(e.message@),
        },
{
    let ghost ts = arg_types(args@);
    let ghost s0 = refs.set();
    let mut fields: Vec<DeclField> = Vec::new();
    let mut k: usize = 0;
    while k < args.len()
        invariant
            ts == arg_types(args@),
            s0 == old(refs).set(),
            refs.wf(),
            k <= args@.len(),
            types_failure(ts.take(k as int)) is None,
            refs.set() == s0.union(types_refs(ts.take(k as int), ns.ctx@, ns.imports@)),
            fields@.len() == k,
            forall|i: int| 0 <= i < k ==> #[trigger] field_of(args@[i].value, ns.ctx@, ns.imports@, fields@[i]),
        decreases args@.len() - k,
    {
        let arg = &args[k].value;
        assert(ts.take(k + 1).drop_last() =~= ts.take(k as int));
        assert(ts.take(k + 1).last() == arg.typ);
        let ghost before = refs.set();
        match convert_ast_type(&arg.typ, ns, refs) {
            Ok(ty) => {
                let comments = extract_comments(&arg.comments);
                assert(strings_view(comments.comments@) =~= comment_texts(arg.comments));
                let optional = match arg.sep {
                    Sep::Optional => true,
                    Sep::Required => false,
                };
                fields.push(DeclField {
                    name: arg.name.value.borrow_string().clone(),
                    ty,
                    default_value: None,
                    optional,
                    comments,
                });
                assert(refs.set() =~= s0.union(types_refs(ts.take(k + 1), ns.ctx@, ns.imports@)));
            },
            Err(e) => {
                proof {
                    assert(refs.set() =~= s0.union(types_refs(ts.take(k + 1), ns.ctx@, ns.imports@)));
                    lemma_types_failure_prefix(ts, k + 1, ns.ctx@, ns.imports@);
                }
                return Err(e);
            },
        }
        k += 1;
    }
    assert(ts.take(k as int) =~= ts);
    Ok(fields)
}

/// `a2` is the declared form of the operation argument `a`.
pub open spec fn arg_of(a: Arg, ctx: RefContextV, imps: Seq<FromNamedSource<RefOrItemContext>>, a2: DeclArg) -> bool {
    &&& a2.name@ == a.name.value.0@
    &&& converts_to(a.typ, ctx, imps, a2.ty)
    &&& a2.default_value is None
    &&& strings_view(a2.comments.comments@) == comment_texts(a.comments)
}

/// The arguments of an operation, written or not.
pub open spec fn written_args(args: Option<Spanned<Vec<Spanned<Arg>>>>) -> Seq<Spanned<Arg>> {
    match args {
        Some(a) => a.value@,
        None => Seq::empty(),
    }
}

/// The declared arguments of an operation: each argument's name, declared
/// type and comments, with no default value.
pub fn convert_operation_args(
    args: &Option<Spanned<Vec<Spanned<Arg>>>>,
    ns: &NamespaceCtx,
    refs: &mut RefSet,
) -> (r: Result<Vec<DeclArg>, ConvertError>)
    requires
        old(refs).wf(),
    ensures
        final(refs).wf(),
        final(refs).set() == old(refs).set().union(types_refs(arg_types(written_args(*args)), ns.ctx@, ns.imports@)),
        match r {
            Ok(out) => {
                &&& types_failure(arg_types(written_args(*args))) is None
                &&& out@.len() == written_args(*args).len()
                &&& forall|i: int| 0 <= i < out@.len() ==> #[trigger] arg_of(written_args(*args)[i].value, ns.ctx@, ns.imports@, out@[i])
            },
            Err(e) => types_failure(arg_types(written_args(*args))) == Some(e.message@),
        },
{
    match args {
        None => {
            let out: Vec<DeclArg> = Vec::new();
            assert(arg_types(written_args(*args)) =~= Seq::<Type>::empty());
            assert(old(refs).set() =~= old(refs).set().union(Set::empty()));
            Ok(out)
        },
        Some(list) => {
            let fields = convert_struct_fields(&list.value, ns, refs)?;
            let ghost fv = fields@;
            let mut fields = fields;
            let mut out: Vec<DeclArg> = Vec::new();
            let n = fields.len();
            let mut taken: usize = 0;
            let mut rest: Vec<DeclField> = Vec::new();
            while fields.len() > 0
                invariant
                    n == fv.len(),
                    fields@ == fv.subrange(taken as int, n as int),
                    taken + fields@.len() == n,
                    out@.len() == taken,
                    forall|i: int| 0 <= i < taken ==> #[trigger] arg_of(list.value@[i].value, ns.ctx@, ns.imports@, out@[i]),
                    fv.len() == list.value@.len(),
                    forall|i: int| 0 <= i < fv.len() ==> #[trigger] field_of(list.value@[i].value, ns.ctx@, ns.imports@, fv[i]),
                decreases fields@.len(),
            {
                let f = fields.remove(0);
                assert(f == fv[taken as int]);
                assert(field_of(list.value@[taken as int].value, ns.ctx@, ns.imports@, fv[taken as int]));
                let ghost prev = out@;
                out.push(DeclArg { name: f.name, ty: f.ty, default_value: None, comments: f.comments });
                assert(arg_of(list.value@[taken as int].value, ns.ctx@, ns.imports@, out@[taken as int]));
                assert forall|i: int| 0 <= i < taken + 1 implies #[trigger] arg_of(list.value@[i].value, ns.ctx@, ns.imports@, out@[i]) by {
                    if i < taken {
                        assert(out@[i] == prev[i]);
                    }
                }
                taken += 1;
                assert(fields@ =~= fv.subrange(taken as int, n as int));
            }
            Ok(out)
        },
    }
}

/// The types of the variants of an anonymous oneof.
pub open spec fn variant_types(vs: Seq<Spanned<Type>>) -> Seq<Type> {
    vs.map_values(|v: Spanned<Type>| v.value)
}

/// The declared variants of an anonymous oneof: each named after its type
/// and position, with its declared type and no comments.
pub fn convert_anonymous_oneof_variants(
    oneof: &AnonymousOneOf,
    ns: &NamespaceCtx,
    refs: &mut RefSet,
) -> (r: Result<Vec<DeclOneOfVariant>, ConvertError>)
    requires
        old(refs).wf(),
    ensures
        final(refs).wf(),
        final(refs).set() == old(refs).set().union(types_refs(variant_types(oneof.variants@), ns.ctx@, ns.imports@)),
        match r {
            Ok(out) => {
                &&& types_failure(variant_types(oneof.variants@)) is None
                &&& out@.len() == oneof.variants@.len()
                &&& forall|i: int| 0 <= i < out@.len() ==> {
                    &&& (#[trigger] out@[i]).name@ == variant_name(oneof.variants@[i].value, i as nat)
                    &&& converts_to(oneof.variants@[i].value, ns.ctx@, ns.imports@, out@[i].ty)
                    &&& out@[i].comments.comments@.len() == 0
                }
            },
            Err(e) => types_failure(variant_types(oneof.variants@)) == Some(e.message@),
        },
{
    let ghost ts = variant_types(oneof.variants@);
    let ghost s0 = refs.set();
    let mut out: Vec<DeclOneOfVariant> = Vec::new();
    let mut k: usize = 0;
    while k < oneof.variants.len()
        invariant
            ts == variant_types(oneof.variants@),
            s0 == old(refs).set(),
            refs.wf(),
            k <= oneof.variants@.len(),
            types_failure(ts.take(k as int)) is None,
            refs.set() == s0.union(types_refs(ts.take(k as int), ns.ctx@, ns.imports@)),
            out@.len() == k,
            forall|i: int| 0 <= i < k ==> {
                &&& (#[trigger] out@[i]).name@ == variant_name(oneof.variants@[i].value, i as nat)
                &&& converts_to(oneof.variants@[i].value, ns.ctx@, ns.imports@, out@[i].ty)
                &&& out@[i].comments.comments@.len() == 0
            },
        decreases oneof.variants@.len() - k,
    {
        let v = &oneof.variants[k].value;
        assert(ts.take(k + 1).drop_last() =~= ts.take(k as int));
        assert(ts.take(k + 1).last() == *v);
        match convert_ast_type(v, ns, refs) {
            Ok(ty) => {
                let name = generate_variant_name_from_type(v, k);
                out.push(DeclOneOfVariant { name, ty, comments: DeclComment::new() });
                assert(refs.set() =~= s0.union(types_refs(ts.take(k + 1), ns.ctx@, ns.imports@)));
            },
            Err(e) => {
                proof {
                    assert(refs.set() =~= s0.union(types_refs(ts.take(k + 1), ns.ctx@, ns.imports@)));
                    lemma_types_failure_prefix(ts, k + 1, ns.ctx@, ns.imports@);
                }
                return Err(e);
            },
        }
        k += 1;
    }
    assert(ts.take(k as int) =~= ts);
    Ok(out)
}

/// The items of other packages recorded while a type is converted are
/// exactly those that the declared type reports as its external references.
pub proof fn law_converted_refs_match_declared(t: Type, ctx: RefContextV, imps: Seq<FromNamedSource<RefOrItemContext>>, d: DeclType)
    requires
        converts_to(t, ctx, imps, d),
    ensures
        type_refs(d, ctx.package) == ast_refs(t, ctx, imps),
    decreases t,
{
    match t {
        Type::Array { ty } => match ty.value {
            Array::Unsized { ty: inner } => {
                if let DeclType::Array { element_type } = d {
                    law_converted_refs_match_declared(inner.value, ctx, imps, *element_type);
                }
            },
            Array::Sized { ty: inner, .. } => {
                if let DeclType::SizedArray { element_type, .. } = d {
                    law_converted_refs_match_declared(inner.value, ctx, imps, *element_type);
                }
            },
        },
        Type::Paren { ty } => {
            if let DeclType::Paren { inner_type } = d {
                law_converted_refs_match_declared(ty.value, ctx, imps, *inner_type);
            }
        },
        _ => {},
    }
}

} // verus!
