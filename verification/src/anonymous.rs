//! Anonymous structs written inside other types become named structs: each
//! is named by the path of fields, variants and items that leads to it.
use vstd::prelude::*;
use crate::defs::Spanned;
use crate::toks::strings_view;
use crate::ast::{AnonymousOneOf, ArgV, Array, OneOfDef, OperationDef, StructDef, Type, TypeV, Variant, args_view, types_view};
use crate::ast_ops::{dup_anonymous_struct, lemma_types_view};
use crate::common::{FromNamedSource, NamespaceChild};
use crate::helpers::{NameContext, build_struct_def_from_anonymous, pascal_case, underscore_join};
use crate::text::{nat_decimal, push_nat_decimal};

verus! {

/// `Variant` followed by the variant's number.
pub open spec fn variant_label(idx: nat) -> Seq<char> {
    "Variant"@ + nat_decimal(idx)
}

/// `Variant{idx}`.
pub fn variant_label_string(idx: usize) -> (r: String)
    ensures
        r@ == variant_label(idx as nat),
{
    let mut s = String::from_str("Variant");
    push_nat_decimal(&mut s, idx as u64);
    s
}

/// The structs (name and fields) that anonymous structs in a type become,
/// when the type is reached by `path`.
pub open spec fn anon_type(path: Seq<Seq<char>>, t: TypeV) -> Seq<(Seq<char>, Seq<ArgV>)>
    decreases t,
{
    match t {
        TypeV::Struct(fields) => anon_fields(path, fields).push((pascal_case(underscore_join(path)), fields)),
        TypeV::Array(e, _) => anon_type(path, *e),
        TypeV::OneOf(vs) => anon_variants(path, vs),
        TypeV::Paren(inner) => anon_type(path, *inner),
        TypeV::Result(inner) => anon_type(path, *inner),
        _ => Seq::empty(),
    }
}

/// Each field's type, reached by the path and the field's name.
pub open spec fn anon_fields(path: Seq<Seq<char>>, fields: Seq<ArgV>) -> Seq<(Seq<char>, Seq<ArgV>)>
    decreases fields,
{
    if fields.len() == 0 {
        Seq::empty()
    } else {
        anon_fields(path, fields.drop_last()) + anon_type(path.push(fields.last().name), fields.last().typ)
    }
}

/// Each variant's type, reached by the path and `Variant{index}`.
pub open spec fn anon_variants(path: Seq<Seq<char>>, vs: Seq<TypeV>) -> Seq<(Seq<char>, Seq<ArgV>)>
    decreases vs,
{
    if vs.len() == 0 {
        Seq::empty()
    } else {
        anon_variants(path, vs.drop_last()) + anon_type(path.push(variant_label((vs.len() - 1) as nat)), vs.last())
    }
}

/// The fields of a named struct: fields that are anonymous structs
/// themselves are extracted elsewhere, so only their other types count.
pub open spec fn anon_struct_fields(path: Seq<Seq<char>>, fields: Seq<ArgV>) -> Seq<(Seq<char>, Seq<ArgV>)>
    decreases fields.len(),
{
    if fields.len() == 0 {
        Seq::empty()
    } else {
        let f = fields.last();
        anon_struct_fields(path, fields.drop_last()) + if f.typ is Struct {
            Seq::empty()
        } else {
            anon_type(path.push(f.name), f.typ)
        }
    }
}

/// The names and fields of extracted structs.
pub open spec fn defs_view(s: Seq<FromNamedSource<StructDef>>) -> Seq<(Seq<char>, Seq<ArgV>)> {
    s.map_values(|d: FromNamedSource<StructDef>| (d.value.def.value.name.value.0@, args_view(d.value.def.value.args@)))
}

/// Every extracted struct comes from `source`.
pub open spec fn all_from(s: Seq<FromNamedSource<StructDef>>, source: Seq<char>) -> bool {
    forall|i: int| 0 <= i < s.len() ==> (#[trigger] s[i]).source@ == source
}

proof fn lemma_defs_view_concat(a: Seq<FromNamedSource<StructDef>>, b: Seq<FromNamedSource<StructDef>>)
    ensures
        defs_view(a + b) == defs_view(a) + defs_view(b),
{
    assert(defs_view(a + b) =~= defs_view(a) + defs_view(b));
}

fn append_defs(out: &mut Vec<FromNamedSource<StructDef>>, more: Vec<FromNamedSource<StructDef>>, Ghost(source): Ghost<Seq<char>>)
    requires
        all_from(old(out)@, source),
        all_from(more@, source),
    ensures
        defs_view(final(out)@) == defs_view(old(out)@) + defs_view(more@),
        all_from(final(out)@, source),
{
    let mut more = more;
    let ghost a = out@;
    let ghost b = more@;
    out.append(&mut more);
    proof {
        lemma_defs_view_concat(a, b);
        assert forall|i: int| 0 <= i < out@.len() implies (#[trigger] out@[i]).source@ == source by {
            if i < a.len() {
                assert(out@[i] == a[i]);
            } else {
                assert(out@[i] == b[i - a.len()]);
            }
        }
    }
}

/// The structs that anonymous structs inside `typ` become.
pub fn from_type(name_gen: &mut NameContext, typ: &Type, source: &String) -> (r: Vec<FromNamedSource<StructDef>>)
    ensures
        final(name_gen).stack@ == old(name_gen).stack@,
        defs_view(r@) == anon_type(strings_view(old(name_gen).stack@), typ@),
        all_from(r@, source@),
    decreases typ,
{
    let ghost path = strings_view(name_gen.stack@);
    match typ {
        Type::Struct { ty } => {
            proof {
                assert(decreases_to!(*typ => (*typ)->Struct_ty));
            }
            anonymous_struct(name_gen, ty, source)
        },
        Type::Array { ty } => {
            proof {
                assert(decreases_to!(*typ => (*typ)->Array_ty));
                assert(decreases_to!((*typ)->Array_ty => (*typ)->Array_ty.value));
            }
            from_array(name_gen, &ty.value, source)
        },
        Type::Union { .. } => {
            let v: Vec<FromNamedSource<StructDef>> = Vec::new();
            assert(defs_view(v@) =~= Seq::empty());
            v
        },
        Type::OneOf { ty } => {
            proof {
                assert(decreases_to!(*typ => (*typ)->OneOf_ty));
                assert(decreases_to!((*typ)->OneOf_ty => (*typ)->OneOf_ty.value));
            }
            from_anonymous_oneof(name_gen, &ty.value, source)
        },
        Type::Paren { ty } => {
            proof {
                assert(decreases_to!(*typ => (*typ)->Paren_ty));
                assert(decreases_to!((*typ)->Paren_ty => (*typ)->Paren_ty.value));
            }
            from_type(name_gen, &ty.value, source)
        },
        Type::Result { ty } => {
            proof {
                assert(decreases_to!(*typ => (*typ)->Result_ty));
                assert(decreases_to!((*typ)->Result_ty => (*typ)->Result_ty.value));
            }
            from_type(name_gen, &ty.value, source)
        },
        _ => {
            let v: Vec<FromNamedSource<StructDef>> = Vec::new();
            assert(defs_view(v@) =~= Seq::empty());
            v
        },
    }
}

/// The structs inside the fields of an anonymous struct, then the struct
/// itself, named by the path that leads to it.
pub fn anonymous_struct(
    name_gen: &mut NameContext,
    anonymous: &Spanned<crate::ast::AnonymousStruct>,
    source: &String,
) -> (r: Vec<FromNamedSource<StructDef>>)
    ensures
        final(name_gen).stack@ == old(name_gen).stack@,
        defs_view(r@) == anon_type(strings_view(old(name_gen).stack@), TypeV::Struct(args_view(anonymous.value.fields@))),
        all_from(r@, source@),
    decreases anonymous,
{
    let ghost path = strings_view(name_gen.stack@);
    let ghost stack0 = name_gen.stack@;
    let fields = &anonymous.value.fields;
    let mut extracted: Vec<FromNamedSource<StructDef>> = Vec::new();
    let mut k: usize = 0;
    while k < fields.len()
        invariant
            *fields == anonymous.value.fields,
            name_gen.stack@ == stack0,
            path == strings_view(stack0),
            k <= fields@.len(),
            defs_view(extracted@) == anon_fields(path, args_view(fields@.subrange(0, k as int))),
            all_from(extracted@, source@),
        decreases fields@.len() - k,
    {
        proof {
            assert(decreases_to!(*anonymous => anonymous.value));
            assert(decreases_to!(anonymous.value => anonymous.value.fields));
            assert(decreases_to!(anonymous.value.fields => anonymous.value.fields@));
            assert(decreases_to!(fields@ => fields@[k as int]));
            assert(decreases_to!(fields@[k as int] => fields@[k as int].value));
            assert(decreases_to!(fields@[k as int].value => fields@[k as int].value.typ));
        }
        let field = &fields[k].value;
        name_gen.push(field.name.value.0.clone());
        let more = from_type(name_gen, &field.typ, source);
        name_gen.pop();
        proof {
            assert(strings_view(stack0.push(field.name.value.0)) =~= path.push(field.name.value.0@));
            let pre = fields@.subrange(0, k as int);
            let post = fields@.subrange(0, k + 1);
            assert(post.drop_last() =~= pre);
            assert(args_view(post) == args_view(pre).push(crate::ast::arg_view(fields@[k as int].value)));
            assert(args_view(post).drop_last() =~= args_view(pre));
            assert(stack0.push(field.name.value.0).drop_last() =~= stack0);
        }
        append_defs(&mut extracted, more, Ghost(source@));
        k += 1;
    }
    assert(fields@.subrange(0, fields@.len() as int) =~= fields@);
    let generated_name = name_gen.generate_name();
    let copy = dup_anonymous_struct(&anonymous.value);
    let struct_def = build_struct_def_from_anonymous(generated_name, copy, source.clone());
    let ghost before = extracted@;
    extracted.push(struct_def);
    proof {
        assert(defs_view(extracted@) =~= defs_view(before).push((pascal_case(underscore_join(path)), args_view(anonymous.value.fields@))));
        assert forall|i: int| 0 <= i < extracted@.len() implies (#[trigger] extracted@[i]).source@ == source@ by {
            if i < before.len() {
                assert(extracted@[i] == before[i]);
            }
        }
    }
    extracted
}

/// The structs inside the element type of an array.
pub fn from_array(name_gen: &mut NameContext, array: &Array, source: &String) -> (r: Vec<FromNamedSource<StructDef>>)
    ensures
        final(name_gen).stack@ == old(name_gen).stack@,
        defs_view(r@) == anon_type(strings_view(old(name_gen).stack@), match *array {
            Array::Unsized { ty } => ty.value@,
            Array::Sized { ty, .. } => ty.value@,
        }),
        all_from(r@, source@),
    decreases array,
{
    match array {
        Array::Sized { ty, .. } => {
            proof {
                assert(decreases_to!(*array => (*array)->Sized_ty));
                assert(decreases_to!((*array)->Sized_ty => (*array)->Sized_ty.value));
            }
            from_type(name_gen, &ty.value, source)
        },
        Array::Unsized { ty } => {
            proof {
                assert(decreases_to!(*array => (*array)->Unsized_ty));
                assert(decreases_to!((*array)->Unsized_ty => (*array)->Unsized_ty.value));
            }
            from_type(name_gen, &ty.value, source)
        },
    }
}

/// Unions hold no anonymous struct to extract.
pub fn from_union(union: &crate::ast::Union, source: &String) -> (r: Vec<FromNamedSource<StructDef>>)
    ensures
        r@.len() == 0,
{
    Vec::new()
}

/// The structs inside each variant of an anonymous oneof, reached by
/// `Variant{index}`.
pub fn from_anonymous_oneof(name_gen: &mut NameContext, oneof: &AnonymousOneOf, source: &String) -> (r: Vec<FromNamedSource<StructDef>>)
    ensures
        final(name_gen).stack@ == old(name_gen).stack@,
        defs_view(r@) == anon_variants(strings_view(old(name_gen).stack@), types_view(oneof.variants@)),
        all_from(r@, source@),
    decreases oneof,
{
    let ghost path = strings_view(name_gen.stack@);
    let ghost stack0 = name_gen.stack@;
    let vs = &oneof.variants;
    let mut extracted: Vec<FromNamedSource<StructDef>> = Vec::new();
    let mut k: usize = 0;
    while k < vs.len()
        invariant
            *vs == oneof.variants,
            name_gen.stack@ == stack0,
            path == strings_view(stack0),
            k <= vs@.len(),
            defs_view(extracted@) == anon_variants(path, types_view(vs@.subrange(0, k as int))),
            all_from(extracted@, source@),
        decreases vs@.len() - k,
    {
        proof {
            assert(decreases_to!(*oneof => oneof.variants));
            assert(decreases_to!(oneof.variants => oneof.variants@));
            assert(decreases_to!(vs@ => vs@[k as int]));
            assert(decreases_to!(vs@[k as int] => vs@[k as int].value));
        }
        let label = variant_label_string(k);
        let ghost lstr = label;
        name_gen.push(label);
        let more = from_type(name_gen, &vs[k].value, source);
        name_gen.pop();
        proof {
            let pre = vs@.subrange(0, k as int);
            let post = vs@.subrange(0, k + 1);
            assert(post.drop_last() =~= pre);
            assert(types_view(post) == types_view(pre).push(crate::ast::type_view(vs@[k as int].value)));
            assert(types_view(post).drop_last() =~= types_view(pre));
            lemma_types_view(pre);
            assert(strings_view(stack0.push(lstr)) =~= path.push(variant_label(k as nat)));
            assert(stack0.push(lstr).drop_last() =~= stack0);
            assert(pre.len() == k);
        }
        append_defs(&mut extracted, more, Ghost(source@));
        k += 1;
    }
    assert(vs@.subrange(0, vs@.len() as int) =~= vs@);
    extracted
}

/// The structs from the fields of a named struct, reached by each field's
/// name; fields that are anonymous structs are left to the pass that
/// registers types.
pub fn from_struct_fields(name_gen: &mut NameContext, struct_def: &StructDef, source: &String) -> (r: Vec<FromNamedSource<StructDef>>)
    ensures
        final(name_gen).stack@ == old(name_gen).stack@,
        defs_view(r@) == anon_struct_fields(strings_view(old(name_gen).stack@), args_view(struct_def.def.value.args@)),
        all_from(r@, source@),
{
    let ghost path = strings_view(name_gen.stack@);
    let ghost stack0 = name_gen.stack@;
    let fields = &struct_def.def.value.args;
    let mut extracted: Vec<FromNamedSource<StructDef>> = Vec::new();
    let mut k: usize = 0;
    while k < fields.len()
        invariant
            name_gen.stack@ == stack0,
            path == strings_view(stack0),
            k <= fields@.len(),
            defs_view(extracted@) == anon_struct_fields(path, args_view(fields@.subrange(0, k as int))),
            all_from(extracted@, source@),
        decreases fields@.len() - k,
    {
        let field = &fields[k].value;
        name_gen.push(field.name.value.0.clone());
        let more = match &field.typ {
            Type::Struct { .. } => Vec::new(),
            _ => from_type(name_gen, &field.typ, source),
        };
        name_gen.pop();
        proof {
            assert(strings_view(stack0.push(field.name.value.0)) =~= path.push(field.name.value.0@));
            let pre = fields@.subrange(0, k as int);
            let post = fields@.subrange(0, k + 1);
            assert(post.drop_last() =~= pre);
            assert(args_view(post) == args_view(pre).push(crate::ast::arg_view(fields@[k as int].value)));
            assert(args_view(post).drop_last() =~= args_view(pre));
            assert(stack0.push(field.name.value.0).drop_last() =~= stack0);
            assert(defs_view(Seq::<FromNamedSource<StructDef>>::empty()) =~= Seq::empty());
        }
        append_defs(&mut extracted, more, Ghost(source@));
        k += 1;
    }
    assert(fields@.subrange(0, fields@.len() as int) =~= fields@);
    extracted
}

/// The structs of an operation: its arguments' types reached by the
/// operation's and argument's names, then its result reached by `Result`.
pub open spec fn anon_operation(path: Seq<Seq<char>>, op: OperationDef) -> Seq<(Seq<char>, Seq<ArgV>)> {
    let p = path.push(op.def.value.name.value.0@);
    let from_args = match op.def.value.args {
        Some(args) => anon_fields(p, args_view(args.value@)),
        None => Seq::empty(),
    };
    from_args + anon_type(p.push("Result"@), op.def.value.return_type.value@)
}

pub fn from_operation(name_gen: &mut NameContext, op_def: &OperationDef, source: &String) -> (r: Vec<FromNamedSource<StructDef>>)
    ensures
        final(name_gen).stack@ == old(name_gen).stack@,
        defs_view(r@) == anon_operation(strings_view(old(name_gen).stack@), *op_def),
        all_from(r@, source@),
{
    let ghost path = strings_view(name_gen.stack@);
    let ghost stack0 = name_gen.stack@;
    let op = &op_def.def.value;
    let name = op.name.value.0.clone();
    name_gen.push(name);
    let ghost stack1 = name_gen.stack@;
    let ghost p1 = strings_view(stack1);
    proof {
        assert(p1 =~= path.push(op.name.value.0@));
    }
    let mut extracted: Vec<FromNamedSource<StructDef>> = Vec::new();
    proof {
        assert(defs_view(extracted@) =~= Seq::empty());
    }
    match &op.args {
        Some(args) => {
            let fields = &args.value;
            let mut k: usize = 0;
            while k < fields.len()
                invariant
                    name_gen.stack@ == stack1,
                    p1 == strings_view(stack1),
                    k <= fields@.len(),
                    defs_view(extracted@) == anon_fields(p1, args_view(fields@.subrange(0, k as int))),
                    all_from(extracted@, source@),
                decreases fields@.len() - k,
            {
                let field = &fields[k].value;
                name_gen.push(field.name.value.0.clone());
                let more = from_type(name_gen, &field.typ, source);
                name_gen.pop();
                proof {
                    assert(strings_view(stack1.push(field.name.value.0)) =~= p1.push(field.name.value.0@));
                    let pre = fields@.subrange(0, k as int);
                    let post = fields@.subrange(0, k + 1);
                    assert(post.drop_last() =~= pre);
                    assert(args_view(post) == args_view(pre).push(crate::ast::arg_view(fields@[k as int].value)));
                    assert(args_view(post).drop_last() =~= args_view(pre));
                    assert(stack1.push(field.name.value.0).drop_last() =~= stack1);
                }
                append_defs(&mut extracted, more, Ghost(source@));
                k += 1;
            }
            assert(fields@.subrange(0, fields@.len() as int) =~= fields@);
        },
        None => {},
    }
    let result_label = String::from_str("Result");
    let ghost rl = result_label;
    name_gen.push(result_label);
    let more = from_type(name_gen, &op.return_type.value, source);
    name_gen.pop();
    proof {
        assert(strings_view(stack1.push(rl)) =~= p1.push("Result"@));
        assert(stack1.push(rl).drop_last() =~= stack1);
    }
    append_defs(&mut extracted, more, Ghost(source@));
    name_gen.pop();
    proof {
        assert(stack1.drop_last() =~= stack0);
    }
    extracted
}

/// The structs of each variant of a named oneof, reached by
/// `Variant{index}`: a tuple variant's type, or the fields of a struct
/// variant.
pub open spec fn anon_oneof_variants(path: Seq<Seq<char>>, vs: Seq<Spanned<Variant>>) -> Seq<(Seq<char>, Seq<ArgV>)>
    decreases vs.len(),
{
    if vs.len() == 0 {
        Seq::empty()
    } else {
        let p = path.push(variant_label((vs.len() - 1) as nat));
        anon_oneof_variants(path, vs.drop_last()) + match vs.last().value {
            Variant::Tuple { inner, .. } => anon_type(p, inner@),
            Variant::LocalStruct { inner, .. } => anon_fields(p, args_view(inner.value.fields@)),
            Variant::Unit { .. } => Seq::empty(),
        }
    }
}

pub fn from_oneof(name_gen: &mut NameContext, oneof_def: &OneOfDef, source: &String) -> (r: Vec<FromNamedSource<StructDef>>)
    ensures
        final(name_gen).stack@ == old(name_gen).stack@,
        defs_view(r@) == anon_oneof_variants(strings_view(old(name_gen).stack@), oneof_def.def.value.variants@),
        all_from(r@, source@),
{
    let ghost path = strings_view(name_gen.stack@);
    let ghost stack0 = name_gen.stack@;
    let vs = &oneof_def.def.value.variants;
    let mut extracted: Vec<FromNamedSource<StructDef>> = Vec::new();
    let mut idx: usize = 0;
    while idx < vs.len()
        invariant
            name_gen.stack@ == stack0,
            path == strings_view(stack0),
            idx <= vs@.len(),
            defs_view(extracted@) == anon_oneof_variants(path, vs@.subrange(0, idx as int)),
            all_from(extracted@, source@),
        decreases vs@.len() - idx,
    {
        let label = variant_label_string(idx);
        let ghost lstr = label;
        name_gen.push(label);
        let ghost stack1 = name_gen.stack@;
        let ghost p1 = strings_view(stack1);
        proof {
            assert(p1 =~= path.push(variant_label(idx as nat)));
        }
        let more = match &vs[idx].value {
            Variant::Tuple { inner, .. } => from_type(name_gen, inner, source),
            Variant::LocalStruct { inner, .. } => {
                let fields = &inner.value.fields;
                let mut got: Vec<FromNamedSource<StructDef>> = Vec::new();
                proof {
                    assert(defs_view(got@) =~= Seq::empty());
                }
                let mut k: usize = 0;
                while k < fields.len()
                    invariant
                        name_gen.stack@ == stack1,
                        p1 == strings_view(stack1),
                        k <= fields@.len(),
                        defs_view(got@) == anon_fields(p1, args_view(fields@.subrange(0, k as int))),
                        all_from(got@, source@),
                    decreases fields@.len() - k,
                {
                    let field = &fields[k].value;
                    name_gen.push(field.name.value.0.clone());
                    let m = from_type(name_gen, &field.typ, source);
                    name_gen.pop();
                    proof {
                        assert(strings_view(stack1.push(field.name.value.0)) =~= p1.push(field.name.value.0@));
                        let pre = fields@.subrange(0, k as int);
                        let post = fields@.subrange(0, k + 1);
                        assert(post.drop_last() =~= pre);
                        assert(args_view(post) == args_view(pre).push(crate::ast::arg_view(fields@[k as int].value)));
                        assert(args_view(post).drop_last() =~= args_view(pre));
                        assert(stack1.push(field.name.value.0).drop_last() =~= stack1);
                    }
                    append_defs(&mut got, m, Ghost(source@));
                    k += 1;
                }
                assert(fields@.subrange(0, fields@.len() as int) =~= fields@);
                got
            },
            Variant::Unit { .. } => {
                let v: Vec<FromNamedSource<StructDef>> = Vec::new();
                assert(defs_view(v@) =~= Seq::empty());
                v
            },
        };
        name_gen.pop();
        proof {
            assert(stack1.drop_last() =~= stack0);
            let pre = vs@.subrange(0, idx as int);
            let post = vs@.subrange(0, idx + 1);
            assert(post.drop_last() =~= pre);
            assert(post.last() == vs@[idx as int]);
            assert(post.len() - 1 == idx);
        }
        append_defs(&mut extracted, more, Ghost(source@));
        idx += 1;
    }
    assert(vs@.subrange(0, vs@.len() as int) =~= vs@);
    extracted
}

/// The structs of an item, with the file each comes from; a namespace's
/// items are reached by their names.
pub open spec fn anon_child(path: Seq<Seq<char>>, child: FromNamedSource<NamespaceChild>) -> Seq<(Seq<char>, Seq<char>, Seq<ArgV>)>
    decreases child,
{
    let tag = |d: (Seq<char>, Seq<ArgV>)| (child.source@, d.0, d.1);
    match child.value {
        NamespaceChild::Struct(sd) => anon_struct_fields(path, args_view(sd.def.value.args@)).map_values(tag),
        NamespaceChild::Type(td) => anon_type(path, td.def.value.ty.value@).map_values(tag),
        NamespaceChild::Operation(od) => anon_operation(path, od).map_values(tag),
        NamespaceChild::OneOf(od) => anon_oneof_variants(path, od.def.value.variants@).map_values(tag),
        NamespaceChild::Namespace(ns) => anon_children(path, ns.children@),
        _ => Seq::empty(),
    }
}

pub open spec fn anon_children(
    path: Seq<Seq<char>>,
    children: Seq<(crate::paths::NamedItemContext, FromNamedSource<NamespaceChild>)>,
) -> Seq<(Seq<char>, Seq<char>, Seq<ArgV>)>
    decreases children,
{
    if children.len() == 0 {
        Seq::empty()
    } else {
        let (name, c) = children.last();
        anon_children(path, children.drop_last()) + anon_child(path.push(name.name.value.0@), c)
    }
}

/// The extracted structs with their files.
pub open spec fn sourced_view(s: Seq<FromNamedSource<StructDef>>) -> Seq<(Seq<char>, Seq<char>, Seq<ArgV>)> {
    s.map_values(|d: FromNamedSource<StructDef>| (d.source@, d.value.def.value.name.value.0@, args_view(d.value.def.value.args@)))
}

proof fn lemma_sourced(r: Seq<FromNamedSource<StructDef>>, src: Seq<char>)
    requires
        all_from(r, src),
    ensures
        sourced_view(r) == defs_view(r).map_values(|d: (Seq<char>, Seq<ArgV>)| (src, d.0, d.1)),
{
    assert(sourced_view(r) =~= defs_view(r).map_values(|d: (Seq<char>, Seq<ArgV>)| (src, d.0, d.1)));
}

/// The structs that anonymous structs inside an item become.
pub fn from_child(name_gen: &mut NameContext, child: &FromNamedSource<NamespaceChild>) -> (r: Vec<FromNamedSource<StructDef>>)
    ensures
        final(name_gen).stack@ == old(name_gen).stack@,
        sourced_view(r@) == anon_child(strings_view(old(name_gen).stack@), *child),
    decreases child,
{
    let ghost path = strings_view(name_gen.stack@);
    let ghost src = child.source@;
    match &child.value {
        NamespaceChild::Struct(struct_def) => {
            let r = from_struct_fields(name_gen, struct_def, &child.source);
            proof { lemma_sourced(r@, src); }
            r
        },
        NamespaceChild::Type(type_def) => {
            let r = from_type(name_gen, &type_def.def.value.ty.value, &child.source);
            proof { lemma_sourced(r@, src); }
            r
        },
        NamespaceChild::Operation(op_def) => {
            let r = from_operation(name_gen, op_def, &child.source);
            proof { lemma_sourced(r@, src); }
            r
        },
        NamespaceChild::OneOf(oneof_def) => {
            let r = from_oneof(name_gen, oneof_def, &child.source);
            proof { lemma_sourced(r@, src); }
            r
        },
        NamespaceChild::Namespace(ns_ctx) => {
            let ghost stack0 = name_gen.stack@;
            let children = &ns_ctx.children;
            let mut extracted: Vec<FromNamedSource<StructDef>> = Vec::new();
            let mut k: usize = 0;
            while k < children.len()
                invariant
                    *children == ns_ctx.children,
                    *child == (FromNamedSource { source: child.source, value: NamespaceChild::Namespace(*ns_ctx) }),
                    name_gen.stack@ == stack0,
                    path == strings_view(stack0),
                    k <= children@.len(),
                    sourced_view(extracted@) == anon_children(path, children@.subrange(0, k as int)),
                decreases children@.len() - k,
            {
                proof {
                    assert(decreases_to!(*child => child.value));
                    assert(decreases_to!(child.value => (child.value)->Namespace_0));
                    assert(decreases_to!((child.value)->Namespace_0 => (child.value)->Namespace_0.children));
                    assert(decreases_to!((child.value)->Namespace_0.children => (child.value)->Namespace_0.children@));
                    assert(decreases_to!(children@ => children@[k as int]));
                    assert(decreases_to!(children@[k as int] => children@[k as int].1));
                }
                let entry = &children[k];
                name_gen.push(entry.0.name.value.0.clone());
                let more = from_child(name_gen, &entry.1);
                name_gen.pop();
                let ghost before = extracted@;
                let mut more = more;
                let ghost mv = more@;
                extracted.append(&mut more);
                proof {
                    assert(strings_view(stack0.push(entry.0.name.value.0)) =~= path.push(entry.0.name.value.0@));
                    assert(stack0.push(entry.0.name.value.0).drop_last() =~= stack0);
                    let pre = children@.subrange(0, k as int);
                    let post = children@.subrange(0, k + 1);
                    assert(post.drop_last() =~= pre);
                    assert(post.last() == children@[k as int]);
                    assert(sourced_view(extracted@) =~= sourced_view(before) + sourced_view(mv));
                }
                k += 1;
            }
            assert(children@.subrange(0, children@.len() as int) =~= children@);
            extracted
        },
        _ => {
            let v: Vec<FromNamedSource<StructDef>> = Vec::new();
            assert(sourced_view(v@) =~= Seq::empty());
            v
        },
    }
}

} // verus!
