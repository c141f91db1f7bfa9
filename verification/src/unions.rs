//! Finding the unions written inside items, each with the path of names
//! that leads to it and, inside a oneof, the variant it is.
use vstd::prelude::*;
use std::sync::Arc;
use crate::defs::Spanned;
use crate::toks::strings_view;
use crate::ast::{
    ArgV, Array, IdentOrUnionV, OneOfDef, OperationDef, StructDef, Type, TypeV, Union, Variant,
    args_view, types_view, union_view,
};
use crate::ast_ops::{dup_union, lemma_types_view};
use crate::common::{FromNamedSource, NamespaceChild};
use crate::helpers::{NameContext, UnionRecord};
use crate::paths::clone_strings;

verus! {

/// What is recorded of a union found: its operands, the path to it,
/// whether it is inside a oneof, and the variant's number there.
pub type UnionFound = (Seq<IdentOrUnionV>, Seq<Seq<char>>, bool, Option<usize>);

/// The unions inside a type reached by `path`. Fields extend the path;
/// variants of an anonymous oneof are numbered from 1.
pub open spec fn unions_in_type(path: Seq<Seq<char>>, t: TypeV, in_oneof: bool, idx: Option<usize>) -> Seq<UnionFound>
    decreases t,
{
    match t {
        TypeV::Union(ops) => seq![(ops, path, in_oneof, idx)],
        TypeV::Paren(inner) => unions_in_type(path, *inner, in_oneof, idx),
        TypeV::Array(e, _) => unions_in_type(path, *e, in_oneof, idx),
        TypeV::OneOf(vs) => unions_in_variants(path, vs),
        TypeV::Struct(fields) => unions_in_fields(path, fields, in_oneof, idx),
        _ => Seq::empty(),
    }
}

pub open spec fn unions_in_variants(path: Seq<Seq<char>>, vs: Seq<TypeV>) -> Seq<UnionFound>
    decreases vs,
{
    if vs.len() == 0 {
        Seq::empty()
    } else {
        unions_in_variants(path, vs.drop_last()) + unions_in_type(path, vs.last(), true, Some(vs.len() as usize))
    }
}

pub open spec fn unions_in_fields(path: Seq<Seq<char>>, fields: Seq<ArgV>, in_oneof: bool, idx: Option<usize>) -> Seq<UnionFound>
    decreases fields,
{
    if fields.len() == 0 {
        Seq::empty()
    } else {
        unions_in_fields(path, fields.drop_last(), in_oneof, idx)
            + unions_in_type(path.push(fields.last().name), fields.last().typ, in_oneof, idx)
    }
}

/// The records found, as values.
pub open spec fn found_view(s: Seq<FromNamedSource<UnionRecord>>) -> Seq<UnionFound> {
    s.map_values(|r: FromNamedSource<UnionRecord>| (
        union_view((*r.value.union_ref).value.types@),
        strings_view(r.value.context_stack@),
        r.value.in_oneof,
        r.value.variant_index,
    ))
}

/// Every record comes from `source`.
pub open spec fn found_from(s: Seq<FromNamedSource<UnionRecord>>, source: Seq<char>) -> bool {
    forall|i: int| 0 <= i < s.len() ==> (#[trigger] s[i]).source@ == source
}

fn append_found(out: &mut Vec<FromNamedSource<UnionRecord>>, more: Vec<FromNamedSource<UnionRecord>>, Ghost(source): Ghost<Seq<char>>)
    requires
        found_from(old(out)@, source),
        found_from(more@, source),
    ensures
        found_view(final(out)@) == found_view(old(out)@) + found_view(more@),
        found_from(final(out)@, source),
{
    let mut more = more;
    let ghost a = out@;
    let ghost b = more@;
    out.append(&mut more);
    proof {
        assert(found_view(out@) =~= found_view(a) + found_view(b));
        assert forall|i: int| 0 <= i < out@.len() implies (#[trigger] out@[i]).source@ == source by {
            if i < a.len() {
                assert(out@[i] == a[i]);
            } else {
                assert(out@[i] == b[i - a.len()]);
            }
        }
    }
}

/// A record of `union` found at the current path.
fn record_here(name_gen: &NameContext, union: &Spanned<Union>, source: &String, in_oneof: bool, variant_index: Option<usize>)
    -> (r: Vec<FromNamedSource<UnionRecord>>)
    ensures
        found_view(r@) == seq![(union_view(union.value.types@), strings_view(name_gen.stack@), in_oneof, variant_index)],
        found_from(r@, source@),
{
    let copy = Spanned { span: union.span, value: dup_union(&union.value) };
    let record = UnionRecord {
        union_ref: Arc::new(copy),
        context_stack: clone_strings(&name_gen.stack),
        in_oneof,
        variant_index,
    };
    let mut v: Vec<FromNamedSource<UnionRecord>> = Vec::new();
    v.push(FromNamedSource { source: source.clone(), value: record });
    assert(found_view(v@) =~= seq![(union_view(union.value.types@), strings_view(name_gen.stack@), in_oneof, variant_index)]);
    v
}

/// The unions inside a type.
pub fn identify_from_type(
    name_gen: &mut NameContext,
    typ: &Type,
    source: &String,
    in_oneof: bool,
    variant_index: Option<usize>,
) -> (r: Vec<FromNamedSource<UnionRecord>>)
    ensures
        final(name_gen).stack@ == old(name_gen).stack@,
        found_view(r@) == unions_in_type(strings_view(old(name_gen).stack@), typ@, in_oneof, variant_index),
        found_from(r@, source@),
    decreases typ,
{
    let ghost path = strings_view(name_gen.stack@);
    let ghost stack0 = name_gen.stack@;
    match typ {
        Type::Union { ty } => record_here(name_gen, ty, source, in_oneof, variant_index),
        Type::Paren { ty } => {
            proof {
                assert(decreases_to!(*typ => (*typ)->Paren_ty));
                assert(decreases_to!((*typ)->Paren_ty => (*typ)->Paren_ty.value));
            }
            identify_from_type(name_gen, &ty.value, source, in_oneof, variant_index)
        },
        Type::Array { ty } => {
            proof {
                assert(decreases_to!(*typ => (*typ)->Array_ty));
                assert(decreases_to!((*typ)->Array_ty => (*typ)->Array_ty.value));
            }
            identify_from_array(name_gen, &ty.value, source, in_oneof, variant_index)
        },
        Type::OneOf { ty } => {
            let vs = &ty.value.variants;
            let mut unions: Vec<FromNamedSource<UnionRecord>> = Vec::new();
            let mut idx: usize = 0;
            while idx < vs.len()
                invariant
                    *typ == (Type::OneOf { ty: *ty }),
                    *vs == ty.value.variants,
                    name_gen.stack@ == stack0,
                    path == strings_view(stack0),
                    idx <= vs@.len(),
                    found_view(unions@) == unions_in_variants(path, types_view(vs@.subrange(0, idx as int))),
                    found_from(unions@, source@),
                decreases vs@.len() - idx,
            {
                proof {
                    assert(decreases_to!(*typ => (*typ)->OneOf_ty));
                    assert(decreases_to!((*typ)->OneOf_ty => (*typ)->OneOf_ty.value));
                    assert(decreases_to!((*typ)->OneOf_ty.value => (*typ)->OneOf_ty.value.variants));
                    assert(decreases_to!((*typ)->OneOf_ty.value.variants => (*typ)->OneOf_ty.value.variants@));
                    assert(decreases_to!(vs@ => vs@[idx as int]));
                    assert(decreases_to!(vs@[idx as int] => vs@[idx as int].value));
                }
                let more = identify_from_type(name_gen, &vs[idx].value, source, true, Some(idx + 1));
                proof {
                    let pre = vs@.subrange(0, idx as int);
                    let post = vs@.subrange(0, idx + 1);
                    assert(post.drop_last() =~= pre);
                    assert(types_view(post) == types_view(pre).push(crate::ast::type_view(vs@[idx as int].value)));
                    assert(types_view(post).drop_last() =~= types_view(pre));
                    lemma_types_view(post);
                }
                append_found(&mut unions, more, Ghost(source@));
                idx += 1;
            }
            assert(vs@.subrange(0, vs@.len() as int) =~= vs@);
            unions
        },
        Type::Struct { ty } => {
            let fields = &ty.value.fields;
            let mut unions: Vec<FromNamedSource<UnionRecord>> = Vec::new();
            let mut k: usize = 0;
            while k < fields.len()
                invariant
                    *typ == (Type::Struct { ty: *ty }),
                    *fields == ty.value.fields,
                    name_gen.stack@ == stack0,
                    path == strings_view(stack0),
                    k <= fields@.len(),
                    found_view(unions@) == unions_in_fields(path, args_view(fields@.subrange(0, k as int)), in_oneof, variant_index),
                    found_from(unions@, source@),
                decreases fields@.len() - k,
            {
                proof {
                    assert(decreases_to!(*typ => (*typ)->Struct_ty));
                    assert(decreases_to!((*typ)->Struct_ty => (*typ)->Struct_ty.value));
                    assert(decreases_to!((*typ)->Struct_ty.value => (*typ)->Struct_ty.value.fields));
                    assert(decreases_to!((*typ)->Struct_ty.value.fields => (*typ)->Struct_ty.value.fields@));
                    assert(decreases_to!(fields@ => fields@[k as int]));
                    assert(decreases_to!(fields@[k as int] => fields@[k as int].value));
                    assert(decreases_to!(fields@[k as int].value => fields@[k as int].value.typ));
                }
                let field = &fields[k].value;
                name_gen.push(field.name.value.0.clone());
                let more = identify_from_type(name_gen, &field.typ, source, in_oneof, variant_index);
                name_gen.pop();
                proof {
                    assert(strings_view(stack0.push(field.name.value.0)) =~= path.push(field.name.value.0@));
                    assert(stack0.push(field.name.value.0).drop_last() =~= stack0);
                    let pre = fields@.subrange(0, k as int);
                    let post = fields@.subrange(0, k + 1);
                    assert(post.drop_last() =~= pre);
                    assert(args_view(post) == args_view(pre).push(crate::ast::arg_view(fields@[k as int].value)));
                    assert(args_view(post).drop_last() =~= args_view(pre));
                }
                append_found(&mut unions, more, Ghost(source@));
                k += 1;
            }
            assert(fields@.subrange(0, fields@.len() as int) =~= fields@);
            unions
        },
        _ => {
            let v: Vec<FromNamedSource<UnionRecord>> = Vec::new();
            assert(found_view(v@) =~= Seq::empty());
            v
        },
    }
}

/// The unions inside the element type of an array.
pub fn identify_from_array(
    name_gen: &mut NameContext,
    array: &Array,
    source: &String,
    in_oneof: bool,
    variant_index: Option<usize>,
) -> (r: Vec<FromNamedSource<UnionRecord>>)
    ensures
        final(name_gen).stack@ == old(name_gen).stack@,
        found_view(r@) == unions_in_type(strings_view(old(name_gen).stack@), match *array {
            Array::Unsized { ty } => ty.value@,
            Array::Sized { ty, .. } => ty.value@,
        }, in_oneof, variant_index),
        found_from(r@, source@),
    decreases array,
{
    match array {
        Array::Sized { ty, .. } => {
            proof {
                assert(decreases_to!(*array => (*array)->Sized_ty));
                assert(decreases_to!((*array)->Sized_ty => (*array)->Sized_ty.value));
            }
            identify_from_type(name_gen, &ty.value, source, in_oneof, variant_index)
        },
        Array::Unsized { ty } => {
            proof {
                assert(decreases_to!(*array => (*array)->Unsized_ty));
                assert(decreases_to!((*array)->Unsized_ty => (*array)->Unsized_ty.value));
            }
            identify_from_type(name_gen, &ty.value, source, in_oneof, variant_index)
        },
    }
}

/// The unions inside the fields of a named struct.
pub fn identify_from_struct_fields(name_gen: &mut NameContext, struct_def: &StructDef, source: &String) -> (r: Vec<FromNamedSource<UnionRecord>>)
    ensures
        final(name_gen).stack@ == old(name_gen).stack@,
        found_view(r@) == unions_in_fields(strings_view(old(name_gen).stack@), args_view(struct_def.def.value.args@), false, None),
        found_from(r@, source@),
{
    let ghost path = strings_view(name_gen.stack@);
    let ghost stack0 = name_gen.stack@;
    let fields = &struct_def.def.value.args;
    let mut unions: Vec<FromNamedSource<UnionRecord>> = Vec::new();
    let mut k: usize = 0;
    while k < fields.len()
        invariant
            name_gen.stack@ == stack0,
            path == strings_view(stack0),
            k <= fields@.len(),
            found_view(unions@) == unions_in_fields(path, args_view(fields@.subrange(0, k as int)), false, None),
            found_from(unions@, source@),
        decreases fields@.len() - k,
    {
        let field = &fields[k].value;
        name_gen.push(field.name.value.0.clone());
        let more = identify_from_type(name_gen, &field.typ, source, false, None);
        name_gen.pop();
        proof {
            assert(strings_view(stack0.push(field.name.value.0)) =~= path.push(field.name.value.0@));
            assert(stack0.push(field.name.value.0).drop_last() =~= stack0);
            let pre = fields@.subrange(0, k as int);
            let post = fields@.subrange(0, k + 1);
            assert(post.drop_last() =~= pre);
            assert(args_view(post) == args_view(pre).push(crate::ast::arg_view(fields@[k as int].value)));
            assert(args_view(post).drop_last() =~= args_view(pre));
        }
        append_found(&mut unions, more, Ghost(source@));
        k += 1;
    }
    assert(fields@.subrange(0, fields@.len() as int) =~= fields@);
    unions
}

/// The unions of an operation: in its arguments, reached by the operation's
/// and the argument's names, then in its result, reached by `Result`.
pub open spec fn unions_in_operation(path: Seq<Seq<char>>, op: OperationDef) -> Seq<UnionFound> {
    let p = path.push(op.def.value.name.value.0@);
    let from_args = match op.def.value.args {
        Some(args) => unions_in_fields(p, args_view(args.value@), false, None),
        None => Seq::empty(),
    };
    from_args + unions_in_type(p.push("Result"@), op.def.value.return_type.value@, false, None)
}

pub fn identify_from_operation(name_gen: &mut NameContext, op_def: &OperationDef, source: &String) -> (r: Vec<FromNamedSource<UnionRecord>>)
    ensures
        final(name_gen).stack@ == old(name_gen).stack@,
        found_view(r@) == unions_in_operation(strings_view(old(name_gen).stack@), *op_def),
        found_from(r@, source@),
{
    let ghost path = strings_view(name_gen.stack@);
    let ghost stack0 = name_gen.stack@;
    let op = &op_def.def.value;
    name_gen.push(op.name.value.0.clone());
    let ghost stack1 = name_gen.stack@;
    let ghost p1 = strings_view(stack1);
    proof {
        assert(p1 =~= path.push(op.name.value.0@));
    }
    let mut unions: Vec<FromNamedSource<UnionRecord>> = Vec::new();
    proof {
        assert(found_view(unions@) =~= Seq::empty());
    }
    match &op.args {
        Some(args) => {
            let fields = &args.value;
            let mut k: usize = 0;
            while k < fields.len()
                invariant
                    name_gen.stack@ == stack1,
                    p1 == strings_view(stack1),
                    k <= fields@.len(),
                    found_view(unions@) == unions_in_fields(p1, args_view(fields@.subrange(0, k as int)), false, None),
                    found_from(unions@, source@),
                decreases fields@.len() - k,
            {
                let field = &fields[k].value;
                name_gen.push(field.name.value.0.clone());
                let more = identify_from_type(name_gen, &field.typ, source, false, None);
                name_gen.pop();
                proof {
                    assert(strings_view(stack1.push(field.name.value.0)) =~= p1.push(field.name.value.0@));
                    assert(stack1.push(field.name.value.0).drop_last() =~= stack1);
                    let pre = fields@.subrange(0, k as int);
                    let post = fields@.subrange(0, k + 1);
                    assert(post.drop_last() =~= pre);
                    assert(args_view(post) == args_view(pre).push(crate::ast::arg_view(fields@[k as int].value)));
                    assert(args_view(post).drop_last() =~= args_view(pre));
                }
                append_found(&mut unions, more, Ghost(source@));
                k += 1;
            }
            assert(fields@.subrange(0, fields@.len() as int) =~= fields@);
        },
        None => {},
    }
    let result_label = String::from_str("Result");
    let ghost rl = result_label;
    name_gen.push(result_label);
    let more = identify_from_type(name_gen, &op.return_type.value, source, false, None);
    name_gen.pop();
    proof {
        assert(strings_view(stack1.push(rl)) =~= p1.push("Result"@));
        assert(stack1.push(rl).drop_last() =~= stack1);
    }
    append_found(&mut unions, more, Ghost(source@));
    name_gen.pop();
    proof {
        assert(stack1.drop_last() =~= stack0);
    }
    unions
}

/// The unions of the tuple variants of a named oneof, numbered from 1.
pub open spec fn unions_in_oneof(path: Seq<Seq<char>>, vs: Seq<Spanned<Variant>>) -> Seq<UnionFound>
    decreases vs.len(),
{
    if vs.len() == 0 {
        Seq::empty()
    } else {
        unions_in_oneof(path, vs.drop_last()) + match vs.last().value {
            Variant::Tuple { inner, .. } => unions_in_type(path, inner@, true, Some(vs.len() as usize)),
            _ => Seq::empty(),
        }
    }
}

pub fn identify_from_oneof(name_gen: &mut NameContext, oneof_def: &OneOfDef, source: &String) -> (r: Vec<FromNamedSource<UnionRecord>>)
    ensures
        final(name_gen).stack@ == old(name_gen).stack@,
        found_view(r@) == unions_in_oneof(strings_view(old(name_gen).stack@), oneof_def.def.value.variants@),
        found_from(r@, source@),
{
    let ghost path = strings_view(name_gen.stack@);
    let ghost stack0 = name_gen.stack@;
    let vs = &oneof_def.def.value.variants;
    let mut unions: Vec<FromNamedSource<UnionRecord>> = Vec::new();
    let mut idx: usize = 0;
    while idx < vs.len()
        invariant
            name_gen.stack@ == stack0,
            path == strings_view(stack0),
            idx <= vs@.len(),
            found_view(unions@) == unions_in_oneof(path, vs@.subrange(0, idx as int)),
            found_from(unions@, source@),
        decreases vs@.len() - idx,
    {
        let more = match &vs[idx].value {
            Variant::Tuple { inner, .. } => identify_from_type(name_gen, inner, source, true, Some(idx + 1)),
            _ => {
                let v: Vec<FromNamedSource<UnionRecord>> = Vec::new();
                assert(found_view(v@) =~= Seq::empty());
                v
            },
        };
        proof {
            let pre = vs@.subrange(0, idx as int);
            let post = vs@.subrange(0, idx + 1);
            assert(post.drop_last() =~= pre);
            assert(post.last() == vs@[idx as int]);
        }
        append_found(&mut unions, more, Ghost(source@));
        idx += 1;
    }
    assert(vs@.subrange(0, vs@.len() as int) =~= vs@);
    unions
}

/// The unions of an item: a struct's fields, an operation, a oneof's tuple
/// variants, or an alias's target; a namespace is not looked into here.
pub open spec fn unions_in_child(path: Seq<Seq<char>>, child: NamespaceChild) -> Seq<UnionFound> {
    match child {
        NamespaceChild::Struct(sd) => unions_in_fields(path, args_view(sd.def.value.args@), false, None),
        NamespaceChild::Operation(od) => unions_in_operation(path, od),
        NamespaceChild::OneOf(od) => unions_in_oneof(path, od.def.value.variants@),
        NamespaceChild::Type(td) => unions_in_type(path, td.def.value.ty.value@, false, None),
        _ => Seq::empty(),
    }
}

pub fn identify_from_child(name_gen: &mut NameContext, child: &FromNamedSource<NamespaceChild>) -> (r: Vec<FromNamedSource<UnionRecord>>)
    ensures
        final(name_gen).stack@ == old(name_gen).stack@,
        found_view(r@) == unions_in_child(strings_view(old(name_gen).stack@), child.value),
        found_from(r@, child.source@),
{
    let source = child.source.clone();
    match &child.value {
        NamespaceChild::Struct(struct_def) => identify_from_struct_fields(name_gen, struct_def, &source),
        NamespaceChild::Operation(op_def) => identify_from_operation(name_gen, op_def, &source),
        NamespaceChild::OneOf(oneof_def) => identify_from_oneof(name_gen, oneof_def, &source),
        NamespaceChild::Type(alias_def) => {
            match &alias_def.def.value.ty.value {
                Type::Union { ty } => record_here(name_gen, ty, &source, false, None),
                other => identify_from_type(name_gen, other, &source, false, None),
            }
        },
        _ => {
            let v: Vec<FromNamedSource<UnionRecord>> = Vec::new();
            assert(found_view(v@) =~= Seq::empty());
            v
        },
    }
}

} // verus!
