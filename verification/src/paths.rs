//! Qualified names: the package and namespace an item lives in.
use vstd::prelude::*;
use crate::defs::{Span, Spanned};
use crate::text::{append_chars, append_string, str_eq};
use crate::toks::{join_segments, strings_view, IdentToken, Path};
use crate::ast::{PathOrIdent, PathOrIdentV};

verus! {

/// A package and the path of namespaces inside it.
#[derive(Debug)]
pub struct RefContext {
    pub package: String,
    pub namespace: Vec<String>,
}

/// The characters of a package and of each namespace.
pub ghost struct RefContextV {
    pub package: Seq<char>,
    pub namespace: Seq<Seq<char>>,
}

impl View for RefContext {
    type V = RefContextV;

    open spec fn view(&self) -> RefContextV {
        RefContextV { package: self.package@, namespace: strings_view(self.namespace@) }
    }
}

/// A copy of a list of strings.
pub fn clone_strings(v: &Vec<String>) -> (r: Vec<String>)
    ensures
        strings_view(r@) == strings_view(v@),
        r@ == v@,
{
    let r = v.clone();
    assert forall|i: int| 0 <= i < r@.len() implies r@[i] == v@[i] by {
        assert(cloned::<String>(v@[i], r@[i]));
    }
    assert(r@ =~= v@);
    assert(strings_view(r@) =~= strings_view(v@));
    r
}

/// Whether two lists of strings hold the same texts.
pub fn strings_eq(a: &Vec<String>, b: &Vec<String>) -> (r: bool)
    ensures
        r == (strings_view(a@) == strings_view(b@)),
{
    if a.len() != b.len() {
        assert(strings_view(a@).len() != strings_view(b@).len());
        return false;
    }
    let mut k: usize = 0;
    while k < a.len()
        invariant
            a@.len() == b@.len(),
            k <= a@.len(),
            forall|j: int| 0 <= j < k ==> a@[j]@ == b@[j]@,
        decreases a@.len() - k,
    {
        if !str_eq(&a[k], &b[k]) {
            assert(strings_view(a@)[k as int] != strings_view(b@)[k as int]);
            return false;
        }
        k += 1;
    }
    assert(strings_view(a@) =~= strings_view(b@));
    true
}

impl RefContext {
    pub fn new(package: String, namespace: Vec<String>) -> (r: Self)
        ensures
            r.package == package,
            r.namespace == namespace,
    {
        RefContext { package, namespace }
    }

    /// A copy of this context.
    pub fn duplicate(&self) -> (r: Self)
        ensures
            r@ == self@,
            r.package == self.package,
            r.namespace@ == self.namespace@,
    {
        RefContext { package: self.package.clone(), namespace: clone_strings(&self.namespace) }
    }

    /// Whether two contexts name the same package and namespaces.
    pub fn same(&self, other: &RefContext) -> (r: bool)
        ensures
            r == (self@ == other@),
    {
        str_eq(&self.package, &other.package) && strings_eq(&self.namespace, &other.namespace)
    }

    /// The context of the nested namespace `namespace`.
    pub fn enter(&self, namespace: &str) -> (r: Self)
        ensures
            r@ == (RefContextV { package: self@.package, namespace: self@.namespace.push(namespace@) }),
    {
        let mut ns = clone_strings(&self.namespace);
        ns.push(String::from_str(namespace));
        let r = RefContext { package: self.package.clone(), namespace: ns };
        assert(r@.namespace =~= self@.namespace.push(namespace@));
        r
    }

    /// The item `name` of this context.
    pub fn item(&self, name: Spanned<IdentToken>) -> (r: NamedItemContext)
        ensures
            r.context@ == self@,
            r.name == name,
    {
        NamedItemContext::new(name, self.duplicate())
    }

    /// The context of the namespaces `ns` nested in this one.
    pub fn extend(&self, ns: &[String]) -> (r: Self)
        ensures
            r@ == (RefContextV { package: self@.package, namespace: self@.namespace + strings_view(ns@) }),
    {
        let mut new_ns = clone_strings(&self.namespace);
        let mut k: usize = 0;
        while k < ns.len()
            invariant
                k <= ns@.len(),
                strings_view(new_ns@) == self@.namespace + strings_view(ns@.subrange(0, k as int)),
            decreases ns@.len() - k,
        {
            let ghost before = new_ns@;
            let item = ns[k].clone();
            new_ns.push(item);
            assert(strings_view(new_ns@) =~= strings_view(before).push(ns@[k as int]@));
            assert(strings_view(ns@.subrange(0, k + 1)) =~= strings_view(ns@.subrange(0, k as int)).push(ns@[k as int]@));
            assert(strings_view(new_ns@) =~= self@.namespace + strings_view(ns@.subrange(0, k + 1)));
            k += 1;
        }
        assert(ns@.subrange(0, ns@.len() as int) =~= ns@);
        RefContext { package: self.package.clone(), namespace: new_ns }
    }

    /// Like `extend`, but when this context's last namespace is the first
    /// of `ns`, that namespace is not repeated.
    pub fn merge_extend(&self, ns: &[String]) -> (r: Self)
        ensures
            r@ == (RefContextV { package: self@.package, namespace: merged_namespace(self@.namespace, strings_view(ns@)) }),
    {
        let overlap = self.namespace.len() > 0 && ns.len() > 0
            && str_eq(&self.namespace[self.namespace.len() - 1], &ns[0]);
        let base = if overlap {
            let mut b = clone_strings(&self.namespace);
            b.pop();
            let r = RefContext { package: self.package.clone(), namespace: b };
            assert(r@.namespace =~= self@.namespace.drop_last());
            r
        } else {
            self.duplicate()
        };
        base.extend(ns)
    }

    /// The package followed by the namespaces.
    pub fn bits(&self) -> (r: Vec<String>)
        ensures
            strings_view(r@) == seq![self@.package] + self@.namespace,
    {
        let mut bits = Vec::new();
        bits.push(self.package.clone());
        let r = clone_strings(&self.namespace);
        let mut k: usize = 0;
        while k < r.len()
            invariant
                k <= r@.len(),
                strings_view(r@) == self@.namespace,
                strings_view(bits@) == seq![self@.package] + strings_view(r@.subrange(0, k as int)),
            decreases r@.len() - k,
        {
            let ghost before = bits@;
            let item = r[k].clone();
            bits.push(item);
            assert(strings_view(bits@) =~= strings_view(before).push(r@[k as int]@));
            assert(strings_view(r@.subrange(0, k + 1)) =~= strings_view(r@.subrange(0, k as int)).push(r@[k as int]@));
            assert(strings_view(bits@) =~= seq![self@.package] + strings_view(r@.subrange(0, k + 1)));
            k += 1;
        }
        assert(r@.subrange(0, r@.len() as int) =~= r@);
        bits
    }

    /// The context as a path reference: the package, then the namespaces.
    pub fn path(&self) -> (r: PathOrIdent)
        ensures
            r@ == PathOrIdentV::Path(seq![self@.package] + self@.namespace),
            r matches PathOrIdent::Path(p) && p.span == Span::CallSite,
    {
        PathOrIdent::Path(Spanned::call_site(Path::Ambiguous { bits: self.bits() }))
    }

    /// `package::ns1::ns2`, as the context is displayed.
    pub fn display(&self) -> (r: String)
        ensures
            r@ == self@.package + seq![':', ':'] + join_segments(self@.namespace),
    {
        let mut out = self.package.clone();
        append_chars(&mut out, &[':', ':']);
        append_joined(&mut out, &self.namespace);
        out
    }
}

/// `base` followed by `ns`, dropping the last of `base` when it is the
/// first of `ns`.
pub open spec fn merged_namespace(base: Seq<Seq<char>>, ns: Seq<Seq<char>>) -> Seq<Seq<char>> {
    if base.len() > 0 && ns.len() > 0 && base.last() == ns[0] {
        base.drop_last() + ns
    } else {
        base + ns
    }
}

/// Appends the strings joined by `::`.
pub fn append_joined(out: &mut String, bits: &Vec<String>)
    ensures
        final(out)@ == old(out)@ + join_segments(strings_view(bits@)),
{
    let mut k: usize = 0;
    while k < bits.len()
        invariant
            k <= bits@.len(),
            out@ == old(out)@ + join_segments(strings_view(bits@.subrange(0, k as int))),
        decreases bits@.len() - k,
    {
        if k > 0 {
            append_chars(out, &[':', ':']);
        }
        append_string(out, &bits[k]);
        proof {
            let pre = strings_view(bits@.subrange(0, k as int));
            let post = strings_view(bits@.subrange(0, k + 1));
            assert(post.drop_last() =~= pre);
            if k == 0 {
                assert(join_segments(pre) =~= Seq::<char>::empty());
            }
        }
        k += 1;
    }
    assert(bits@.subrange(0, bits@.len() as int) =~= bits@);
}

/// A named item in a context.
#[derive(Debug)]
pub struct NamedItemContext {
    pub context: RefContext,
    pub name: Spanned<IdentToken>,
}

/// The characters of an item's context and name (its span does not count).
pub ghost struct NamedItemContextV {
    pub context: RefContextV,
    pub name: Seq<char>,
}

impl View for NamedItemContext {
    type V = NamedItemContextV;

    open spec fn view(&self) -> NamedItemContextV {
        NamedItemContextV { context: self.context@, name: self.name.value.0@ }
    }
}

impl NamedItemContext {
    pub fn new(name: Spanned<IdentToken>, context: RefContext) -> (r: Self)
        ensures
            r.name == name,
            r.context == context,
    {
        NamedItemContext { name, context }
    }

    /// A copy of this item context.
    pub fn duplicate(&self) -> (r: Self)
        ensures
            r@ == self@,
            r.name.span == self.name.span,
            r.name == self.name,
            r.context.package == self.context.package,
            r.context.namespace@ == self.context.namespace@,
    {
        NamedItemContext {
            context: self.context.duplicate(),
            name: Spanned { span: self.name.span, value: IdentToken(self.name.value.0.clone()) },
        }
    }

    /// Whether two items have the same context and name (spans aside).
    pub fn same(&self, other: &NamedItemContext) -> (r: bool)
        ensures
            r == (self@ == other@),
    {
        self.context.same(&other.context) && str_eq(&self.name.value.0, &other.name.value.0)
    }

    /// The package, the namespaces and the name.
    pub fn path_bits(&self) -> (r: Vec<String>)
        ensures
            strings_view(r@) == seq![self@.context.package] + self@.context.namespace + seq![self@.name],
    {
        let mut bits = self.context.bits();
        bits.push(self.name.value.0.clone());
        assert(strings_view(bits@) =~= seq![self@.context.package] + self@.context.namespace + seq![self@.name]);
        bits
    }

    /// The item as a path reference, spanning the item's name.
    pub fn path(&self) -> (r: PathOrIdent)
        ensures
            r@ == PathOrIdentV::Path(seq![self@.context.package] + self@.context.namespace + seq![self@.name]),
            r matches PathOrIdent::Path(p) && p.span == Span::Known(self.name.span.spec_raw()),
    {
        let span = self.name.span();
        PathOrIdent::Path(Spanned::new(span.start, span.end, Path::Ambiguous { bits: self.path_bits() }))
    }

    /// `package::ns1::ns2::name`.
    pub fn display(&self) -> (r: String)
        ensures
            r@ == join_segments(seq![self@.context.package] + self@.context.namespace + seq![self@.name]),
    {
        let bits = self.path_bits();
        let mut out = String::new();
        append_joined(&mut out, &bits);
        out
    }
}

/// Either a context or a named item in one.
#[derive(Debug)]
pub enum RefOrItemContext {
    Ref(RefContext),
    Item(NamedItemContext),
}

impl RefOrItemContext {
    pub fn from_ref(ctx: RefContext) -> (r: Self)
        ensures
            r == RefOrItemContext::Ref(ctx),
    {
        RefOrItemContext::Ref(ctx)
    }

    pub fn from_item(item: NamedItemContext) -> (r: Self)
        ensures
            r == RefOrItemContext::Item(item),
    {
        RefOrItemContext::Item(item)
    }

    /// The context itself, or the context the item lives in.
    pub fn as_ref_context(&self) -> (r: &RefContext)
        ensures
            *r == match self {
                RefOrItemContext::Ref(ctx) => *ctx,
                RefOrItemContext::Item(item) => item.context,
            },
    {
        match self {
            RefOrItemContext::Ref(ctx) => ctx,
            RefOrItemContext::Item(item) => &item.context,
        }
    }
}

/// Entering a namespace is extending by that one namespace.
pub proof fn law_enter_is_extend_by_one(ctx: RefContextV, name: Seq<char>)
    ensures
        (RefContextV { package: ctx.package, namespace: ctx.namespace.push(name) })
            == (RefContextV { package: ctx.package, namespace: ctx.namespace + seq![name] }),
{
    assert(ctx.namespace.push(name) =~= ctx.namespace + seq![name]);
}

/// Extending merges the shared namespace only at the seam: when the last
/// namespace of the base differs from the first added one, merging and
/// plain extending agree.
pub proof fn law_merge_extend_without_overlap(base: Seq<Seq<char>>, ns: Seq<Seq<char>>)
    requires
        base.len() == 0 || ns.len() == 0 || base.last() != ns[0],
    ensures
        merged_namespace(base, ns) == base + ns,
{
}

} // verus!
