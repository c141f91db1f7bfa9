//! Working state of the resolution passes: the name of the item being
//! walked, the unions found, aliases, and the fields merged from a union.
use vstd::prelude::*;
use std::sync::Arc;
use convert_case::{Case, Casing};
use crate::defs::{Span, Spanned};
use crate::toks::{IdentToken, strings_view};
use crate::ast::{AnonymousStruct, Arg, Struct, StructDef, Type, TypeV, Union};
use crate::ast_ops::same_type;
use crate::common::FromNamedSource;
use crate::ordmap::{StrMap, keys_of, lemma_key_index_from, seq_lt};
use crate::text::{append_string, push_char, push_nat_decimal, nat_decimal};

verus! {

/// The words of `s` written in PascalCase, as `convert_case` computes it.
pub uninterp spec fn pascal_case(s: Seq<char>) -> Seq<char>;

/// `convert_case`'s `to_case(Case::Pascal)`: the words of the text, each
/// capitalised, without separators. Its result is named, not stated.
#[verifier::external_body]
fn to_pascal_case(s: &String) -> (r: String)
    ensures
        r@ == pascal_case(s@),
{
    s.to_case(Case::Pascal)
}

/// The strings joined by `_`.
pub open spec fn underscore_join(bits: Seq<Seq<char>>) -> Seq<char>
    decreases bits.len(),
{
    if bits.len() == 0 {
        Seq::empty()
    } else if bits.len() == 1 {
        bits[0]
    } else {
        underscore_join(bits.drop_last()) + seq!['_'] + bits.last()
    }
}

/// Joins strings with `_`.
pub fn join_underscore(bits: &Vec<String>) -> (r: String)
    ensures
        r@ == underscore_join(strings_view(bits@)),
{
    let mut out = String::new();
    let mut k: usize = 0;
    while k < bits.len()
        invariant
            k <= bits@.len(),
            out@ == underscore_join(strings_view(bits@.subrange(0, k as int))),
        decreases bits@.len() - k,
    {
        let ghost before = out@;
        if k > 0 {
            push_char(&mut out, '_');
        }
        append_string(&mut out, &bits[k]);
        proof {
            let pre = strings_view(bits@.subrange(0, k as int));
            let post = strings_view(bits@.subrange(0, k + 1));
            assert(post.drop_last() =~= pre);
            assert(post.last() == bits@[k as int]@);
            if k == 0 {
                assert(post =~= seq![bits@[0]@]);
            }
        }
        k += 1;
    }
    assert(bits@.subrange(0, bits@.len() as int) =~= bits@);
    out
}

/// The path of names leading to the item being walked.
#[derive(Debug)]
pub struct NameContext {
    pub stack: Vec<String>,
}

impl NameContext {
    pub fn new() -> (r: Self)
        ensures
            r.stack@.len() == 0,
    {
        NameContext { stack: Vec::new() }
    }

    pub fn push(&mut self, name: String)
        ensures
            final(self).stack@ == old(self).stack@.push(name),
    {
        self.stack.push(name);
    }

    /// Leaves the innermost name; an empty path stays empty.
    pub fn pop(&mut self)
        ensures
            final(self).stack@ == if old(self).stack@.len() == 0 {
                old(self).stack@
            } else {
                old(self).stack@.drop_last()
            },
    {
        self.stack.pop();
    }

    /// The name of an item found here: the path joined by `_`, in PascalCase.
    pub fn generate_name(&self) -> (r: String)
        ensures
            r@ == pascal_case(underscore_join(strings_view(self.stack@))),
    {
        let joined = join_underscore(&self.stack);
        to_pascal_case(&joined)
    }
}

/// A union found while walking a namespace, with where it was found.
#[derive(Debug)]
pub struct UnionRecord {
    pub union_ref: Arc<Spanned<Union>>,
    pub context_stack: Vec<String>,
    pub in_oneof: bool,
    /// if in_oneof, the variant index for numeric suffix
    pub variant_index: Option<usize>,
}

/// The name of the struct a union becomes: its path in PascalCase, with the
/// variant number when it is a variant of a oneof.
pub open spec fn union_record_name(stack: Seq<Seq<char>>, in_oneof: bool, variant_index: Option<usize>) -> Seq<char> {
    let base = pascal_case(underscore_join(stack));
    if in_oneof && variant_index is Some {
        base + nat_decimal(variant_index->0 as nat)
    } else {
        base
    }
}

impl UnionRecord {
    pub fn generate_name(&self) -> (r: String)
        ensures
            r@ == union_record_name(strings_view(self.context_stack@), self.in_oneof, self.variant_index),
    {
        let joined = join_underscore(&self.context_stack);
        let mut base = to_pascal_case(&joined);
        if self.in_oneof {
            if let Some(idx) = self.variant_index {
                push_nat_decimal(&mut base, idx as u64);
            }
        }
        base
    }
}

/// A type alias: its target, the file it is in, and the names it refers to.
#[derive(Debug)]
pub struct AliasEntry {
    pub target_type: Spanned<Type>,
    pub source: String,
    pub dependencies: Vec<String>,
}

/// The struct an anonymous struct becomes, under a generated name.
pub fn build_struct_def_from_anonymous(
    generated_name: String,
    anonymous: AnonymousStruct,
    source: String,
) -> (r: FromNamedSource<StructDef>)
    ensures
        r.source == source,
        r.value.meta@.len() == 0,
        r.value.comments@.len() == 0,
        r.value.def.span == Span::CallSite,
        r.value.def.value.name.span == Span::CallSite,
        r.value.def.value.name.value.0 == generated_name,
        r.value.def.value.args == anonymous.fields,
{
    FromNamedSource {
        source,
        value: StructDef {
            comments: Vec::new(),
            meta: Vec::new(),
            def: Spanned::call_site(Struct { name: Spanned::call_site(IdentToken::new(generated_name)), args: anonymous.fields }),
        },
    }
}

/// A field seen twice while merging a union: the later one is dropped.
#[derive(Debug)]
pub struct FieldWarning {
    pub field_name: String,
    pub operand_name: String,
    /// Both have the same type (the later one is shadowed); otherwise the
    /// types conflict.
    pub same_type: bool,
    pub span: Span,
    pub union_span: Option<Span>,
}

/// The fields of a union being merged, by name.
pub struct UnionWorkingSet {
    fields: StrMap<FromNamedSource<Spanned<Arg>>>,
}

/// The warnings a merge gives: for each field whose name is already present,
/// its name and whether its type is the same as the present one.
pub open spec fn merge_warnings(present: Map<Seq<char>, TypeV>, fields: Seq<Spanned<Arg>>) -> Seq<(Seq<char>, bool)>
    decreases fields.len(),
{
    if fields.len() == 0 {
        Seq::empty()
    } else {
        let f = fields[0].value;
        let name = f.name.value.0@;
        if present.contains_key(name) {
            seq![(name, present[name] == f.typ@)] + merge_warnings(present, fields.drop_first())
        } else {
            merge_warnings(present.insert(name, f.typ@), fields.drop_first())
        }
    }
}

/// The index of the first field named `k`, at or after `i`.
pub open spec fn first_field(fields: Seq<Spanned<Arg>>, k: Seq<char>, i: int) -> Option<int>
    decreases fields.len() - i,
{
    if i < 0 || i >= fields.len() {
        None
    } else if fields[i].value.name.value.0@ == k {
        Some(i)
    } else {
        first_field(fields, k, i + 1)
    }
}

/// The field found is named `k`.
pub proof fn lemma_first_field(fields: Seq<Spanned<Arg>>, k: Seq<char>, i: int)
    requires
        0 <= i <= fields.len(),
    ensures
        first_field(fields, k, i) matches Some(j) ==> i <= j < fields.len() && fields[j].value.name.value.0@ == k,
    decreases fields.len() - i,
{
    if i < fields.len() && fields[i].value.name.value.0@ != k {
        lemma_first_field(fields, k, i + 1);
    }
}

pub proof fn lemma_first_field_push(s: Seq<Spanned<Arg>>, x: Spanned<Arg>, k: Seq<char>, i: int)
    requires
        0 <= i <= s.len(),
    ensures
        first_field(s.push(x), k, i) == match first_field(s, k, i) {
            Some(j) => Some(j),
            None => if x.value.name.value.0@ == k { Some(s.len() as int) } else { None },
        },
    decreases s.len() - i,
{
    if i < s.len() {
        assert(s.push(x)[i] == s[i]);
        lemma_first_field_push(s, x, k, i + 1);
    } else {
        assert(s.push(x)[i] == x);
        assert(first_field(s, k, i) is None);
        assert(first_field(s.push(x), k, i + 1) is None);
    }
}

impl UnionWorkingSet {
    pub closed spec fn wf(&self) -> bool {
        &&& self.fields.wf()
        &&& forall|k: Seq<char>| #[trigger] self.fields.spec_get(k) matches Some(v) ==> v.value.value.name.value.0@ == k
    }

    /// The field stored under a name.
    pub closed spec fn field(&self, k: Seq<char>) -> Option<FromNamedSource<Spanned<Arg>>> {
        self.fields.spec_get(k)
    }

    /// The stored fields, in name order.
    pub closed spec fn entries(&self) -> Seq<(String, FromNamedSource<Spanned<Arg>>)> {
        self.fields.entries()
    }

    pub fn new() -> (r: Self)
        ensures
            r.wf(),
            forall|k: Seq<char>| #[trigger] r.field(k) is None,
    {
        UnionWorkingSet { fields: StrMap::new() }
    }

    /// Adds the fields of one operand from `source`. A name already present
    /// keeps its field; each such field gives a warning.
    pub fn merge_struct_with_warnings(
        &mut self,
        source: String,
        operand_name: &str,
        fields: Vec<Spanned<Arg>>,
        union_span: Option<Span>,
    ) -> (r: Vec<FieldWarning>)
        requires
            old(self).wf(),
        ensures
            final(self).wf(),
            forall|k: Seq<char>| #[trigger] final(self).field(k) == match old(self).field(k) {
                Some(v) => Some(v),
                None => match first_field(fields@, k, 0) {
                    Some(i) => Some(FromNamedSource { source, value: fields@[i] }),
                    None => None,
                },
            },
            r@.map_values(|w: FieldWarning| (w.field_name@, w.same_type))
                == merge_warnings(field_types_of(*old(self)), fields@),
            forall|i: int| 0 <= i < r@.len() ==> (#[trigger] r@[i]).operand_name@ == operand_name@
                && r@[i].union_span == union_span,
    {
        let mut warnings: Vec<FieldWarning> = Vec::new();
        let mut rest = fields;
        let ghost all = rest@;
        let ghost old_self = *self;
        let _n = rest.len();
        let mut k: usize = 0;
        while rest.len() > 0
            invariant
                self.wf(),
                rest@ == all.subrange(k as int, all.len() as int),
                k <= all.len(),
                k + rest@.len() == all.len(),
                all.len() <= usize::MAX,
                k + rest@.len() == all.len(),
                warnings@.map_values(|w: FieldWarning| (w.field_name@, w.same_type)) + merge_warnings(field_types_of(*self), rest@)
                    == merge_warnings(field_types_of(old_self), all),
                forall|i: int| 0 <= i < warnings@.len() ==> (#[trigger] warnings@[i]).operand_name@ == operand_name@
                    && warnings@[i].union_span == union_span,
                forall|key: Seq<char>| #[trigger] self.field(key) == match old_self.field(key) {
                    Some(v) => Some(v),
                    None => match first_field(all.subrange(0, k as int), key, 0) {
                        Some(i) => Some(FromNamedSource { source, value: all[i] }),
                        None => None,
                    },
                },
            decreases rest@.len(),
        {
            let ghost rest_before = rest@;
            let ghost w_before = warnings@;
            let ghost self_before = *self;
            let field = rest.remove(0);
            let name = field.value.name.value.0.clone();
            let ghost nv = name@;
            let ghost fv = field;
            proof {
                assert(rest_before[0] == all[k as int]);
                assert(rest@ =~= rest_before.drop_first());
                assert(rest@ =~= all.subrange(k + 1, all.len() as int));
                assert(all.subrange(0, k + 1) =~= all.subrange(0, k as int).push(all[k as int]));
                assert forall|key: Seq<char>|
                    #[trigger] first_field(all.subrange(0, k + 1), key, 0) == match first_field(all.subrange(0, k as int), key, 0) {
                        Some(j) => Some(j),
                        None => if all[k as int].value.name.value.0@ == key { Some(k as int) } else { None },
                    } by {
                    lemma_first_field_push(all.subrange(0, k as int), all[k as int], key, 0);
                }
            }
            let present = match self.fields.get(&name) {
                Some(existing) => Some(same_type(&existing.value.value.typ, &field.value.typ)),
                None => None,
            };
            match present {
                Some(same) => {
                    proof {
                        assert(field_types_of(*self).contains_key(name@));
                        assert(field_types_of(*self)[name@] == self.field(name@)->0.value.value.typ@);
                    }
                    warnings.push(FieldWarning {
                        field_name: name,
                        operand_name: String::from_str(operand_name),
                        same_type: same,
                        span: field.span,
                        union_span,
                    });
                    proof {
                        assert(warnings@.map_values(|w: FieldWarning| (w.field_name@, w.same_type))
                            =~= w_before.map_values(|w: FieldWarning| (w.field_name@, w.same_type)).push((name@, same)));
                        assert(seq![(name@, same)] + merge_warnings(field_types_of(*self), rest@)
                            == merge_warnings(field_types_of(*self), rest_before));
                        assert(warnings@.map_values(|w: FieldWarning| (w.field_name@, w.same_type)) + merge_warnings(field_types_of(*self), rest@)
                            =~= w_before.map_values(|w: FieldWarning| (w.field_name@, w.same_type)) + (seq![(name@, same)] + merge_warnings(field_types_of(*self), rest@)));
                    }
                },
                None => {
                    self.fields.insert(name, FromNamedSource { source: source.clone(), value: field });
                    proof {
                        assert forall|kk: Seq<char>| (#[trigger] self.fields.spec_get(kk)) is Some implies self.fields.spec_get(kk).unwrap().value.value.name.value.0@ == kk by {
                            if kk != nv {
                                assert(self.fields.spec_get(kk) == self_before.fields.spec_get(kk));
                            }
                        }
                        assert(field_types_of(*self) =~= field_types_of(self_before).insert(nv, fv.value.typ@));
                        assert(!field_types_of(self_before).contains_key(nv));
                    }
                },
            }
            proof {
                assert forall|key: Seq<char>| #[trigger] self.field(key) == match old_self.field(key) {
                    Some(v) => Some(v),
                    None => match first_field(all.subrange(0, k + 1), key, 0) {
                        Some(i) => Some(FromNamedSource { source, value: all[i] }),
                        None => None,
                    },
                } by {
                    lemma_first_field_push(all.subrange(0, k as int), all[k as int], key, 0);
                    assert(all.subrange(0, k + 1) =~= all.subrange(0, k as int).push(all[k as int]));
                    if key != nv {
                        assert(self.field(key) == self_before.field(key));
                    }
                }
            }
            k += 1;
        }
        assert(all.subrange(0, k as int) =~= all);
        warnings
    }

    /// Adds the fields of one operand from `source`; a name already present
    /// keeps its field.
    pub fn merge_struct(&mut self, source: String, fields: Vec<Spanned<Arg>>)
        requires
            old(self).wf(),
        ensures
            final(self).wf(),
            forall|k: Seq<char>| #[trigger] final(self).field(k) == match old(self).field(k) {
                Some(v) => Some(v),
                None => match first_field(fields@, k, 0) {
                    Some(i) => Some(FromNamedSource { source, value: fields@[i] }),
                    None => None,
                },
            },
    {
        let _ = self.merge_struct_with_warnings(source, "", fields, None);
    }

    /// The entries are the stored fields, in increasing name order, one for
    /// each name present.
    pub proof fn lemma_entries(&self)
        requires
            self.wf(),
        ensures
            forall|i: int| 0 <= i < self.entries().len() ==> self.field(#[trigger] self.entries()[i].0@) == Some(self.entries()[i].1),
            forall|i: int, j: int| 0 <= i < j < self.entries().len() ==> seq_lt(#[trigger] self.entries()[i].0@, #[trigger] self.entries()[j].0@),
            forall|k: Seq<char>| #[trigger] self.field(k) is Some ==> exists|i: int| 0 <= i < self.entries().len() && self.entries()[i].0@ == k,
    {
        assert forall|i: int| 0 <= i < self.entries().len() implies self.field(#[trigger] self.entries()[i].0@) == Some(self.entries()[i].1) by {
            self.fields.lemma_unique_key(i, self.entries()[i].0@);
        }
        assert forall|i: int, j: int| 0 <= i < j < self.entries().len() implies seq_lt(#[trigger] self.entries()[i].0@, #[trigger] self.entries()[j].0@) by {
            self.fields.lemma_wf();
            assert(keys_of(self.fields.entries())[i] == self.entries()[i].0@);
            assert(keys_of(self.fields.entries())[j] == self.entries()[j].0@);
        }
        assert forall|k: Seq<char>| #[trigger] self.field(k) is Some implies exists|i: int| 0 <= i < self.entries().len() && self.entries()[i].0@ == k by {
            lemma_key_index_from(self.fields.entries(), k, 0);
        }
    }

    /// The struct the merged fields make, in name order.
    pub fn into_struct_def(self, generated_name: String, source: String) -> (r: FromNamedSource<StructDef>)
        requires
            self.wf(),
        ensures
            forall|i: int, j: int| 0 <= i < j < r.value.def.value.args@.len() ==> seq_lt(
                #[trigger] r.value.def.value.args@[i].value.name.value.0@,
                #[trigger] r.value.def.value.args@[j].value.name.value.0@,
            ),
            r.source == source,
            r.value.meta@.len() == 0,
            r.value.comments@.len() == 0,
            r.value.def.value.name.value.0 == generated_name,
            r.value.def.value.args@ == self.entries().map_values(|e: (String, FromNamedSource<Spanned<Arg>>)| e.1.value),
    {
        let values = self.fields.into_values();
        let mut args: Vec<Spanned<Arg>> = Vec::new();
        let mut rest = values;
        let ghost all = rest@;
        let _n = rest.len();
        let mut k: usize = 0;
        while rest.len() > 0
            invariant
                rest@ == all.subrange(k as int, all.len() as int),
                k <= all.len(),
                k + rest@.len() == all.len(),
                all.len() <= usize::MAX,
                args@ == all.subrange(0, k as int).map_values(|v: FromNamedSource<Spanned<Arg>>| v.value),
            decreases rest@.len(),
        {
            let v = rest.remove(0);
            args.push(v.value);
            assert(all.subrange(0, k + 1).map_values(|v: FromNamedSource<Spanned<Arg>>| v.value)
                =~= all.subrange(0, k as int).map_values(|v: FromNamedSource<Spanned<Arg>>| v.value).push(all[k as int].value));
            k += 1;
        }
        assert(all.subrange(0, k as int) =~= all);
        assert(args@ =~= self.entries().map_values(|e: (String, FromNamedSource<Spanned<Arg>>)| e.1.value));
        proof {
            self.lemma_entries();
            assert forall|i: int| 0 <= i < args@.len() implies #[trigger] args@[i].value.name.value.0@ == self.entries()[i].0@ by {
                assert(self.field(self.entries()[i].0@) == Some(self.entries()[i].1));
            }
            assert forall|i: int, j: int| 0 <= i < j < args@.len() implies seq_lt(
                #[trigger] args@[i].value.name.value.0@, #[trigger] args@[j].value.name.value.0@) by {
                assert(args@[i].value.name.value.0@ == self.entries()[i].0@);
                assert(args@[j].value.name.value.0@ == self.entries()[j].0@);
            }
        }
        FromNamedSource {
            source,
            value: StructDef {
                comments: Vec::new(),
                meta: Vec::new(),
                def: Spanned::call_site(Struct { name: Spanned::call_site(IdentToken::new(generated_name)), args }),
            },
        }
    }
}

/// The names and types present in a working set.
pub open spec fn field_types_of(w: UnionWorkingSet) -> Map<Seq<char>, TypeV> {
    Map::new(|k: Seq<char>| w.field(k) is Some, |k: Seq<char>| w.field(k)->0.value.value.typ@)
}

} // verus!
