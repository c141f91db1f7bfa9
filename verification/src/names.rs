//! Package names: the import spelling (`abc_foo`) and the manifest
//! spelling (`abc-foo`), and the `schema` alias of the current package.
use vstd::prelude::*;
use crate::text::{chars_of, push_char, range_eq};
use crate::paths::{RefContext, RefContextV};
use convert_case::{Case, Casing};

verus! {

/// Every `from` replaced by `to`.
pub open spec fn replace_char(s: Seq<char>, from: char, to: char) -> Seq<char> {
    s.map_values(|c: char| if c == from { to } else { c })
}

fn replace_all(s: &str, from: char, to: char) -> (r: String)
    ensures
        r@ == replace_char(s@, from, to),
{
    let v = chars_of(s);
    let mut out = String::new();
    let mut k: usize = 0;
    while k < v.len()
        invariant
            k <= v@.len(),
            v@ == s@,
            out@ == replace_char(v@.subrange(0, k as int), from, to),
        decreases v@.len() - k,
    {
        let c = v[k];
        push_char(&mut out, if c == from { to } else { c });
        assert(replace_char(v@.subrange(0, k + 1), from, to) =~= replace_char(v@.subrange(0, k as int), from, to).push(if c == from { to } else { c }));
        k += 1;
    }
    assert(v@.subrange(0, v@.len() as int) =~= v@);
    out
}

/// Normalize a package name from import format (abc_foo) to manifest format (abc-foo)
pub fn normalize_import_to_package_name(import_name: &str) -> (r: String)
    ensures
        r@ == replace_char(import_name@, '_', '-'),
{
    replace_all(import_name, '_', '-')
}

/// Normalize a package name from manifest format (abc-foo) to import format (abc_foo)
pub fn normalize_package_to_import_name(package_name: &str) -> (r: String)
    ensures
        r@ == replace_char(package_name@, '-', '_'),
{
    replace_all(package_name, '-', '_')
}

/// The package a leading path segment stands for: `schema` is the current
/// package `pkg`, any other segment names itself.
pub fn guard_schema(pkg: &str, leading_path: &str) -> (r: String)
    ensures
        r@ == if leading_path@ == seq!['s', 'c', 'h', 'e', 'm', 'a'] { pkg@ } else { leading_path@ },
{
    let v = chars_of(leading_path);
    assert(v@.subrange(0, v@.len() as int) =~= v@);
    if range_eq(&v, 0, v.len(), &['s', 'c', 'h', 'e', 'm', 'a']) {
        String::from_str(pkg)
    } else {
        String::from_str(leading_path)
    }
}

/// A name in import spelling has no `-`, in manifest spelling no `_`.
pub proof fn law_normalized_names_are_clean(s: Seq<char>)
    ensures
        !replace_char(s, '_', '-').contains('_'),
        !replace_char(s, '-', '_').contains('-'),
{
}

/// Turning an import name into a package name and back gives the import
/// name again, when the import name has no `-`.
pub proof fn law_import_name_round_trip(s: Seq<char>)
    requires
        !s.contains('-'),
    ensures
        replace_char(replace_char(s, '_', '-'), '-', '_') == s,
{
    assert forall|i: int| 0 <= i < s.len() implies replace_char(replace_char(s, '_', '-'), '-', '_')[i] == s[i] by {
        assert(s[i] != '-');
    }
    assert(replace_char(replace_char(s, '_', '-'), '-', '_') =~= s);
}

/// Turning a package name into an import name and back gives the package
/// name again, when the package name has no `_`.
pub proof fn law_package_name_round_trip(s: Seq<char>)
    requires
        !s.contains('_'),
    ensures
        replace_char(replace_char(s, '-', '_'), '_', '-') == s,
{
    assert forall|i: int| 0 <= i < s.len() implies replace_char(replace_char(s, '-', '_'), '_', '-')[i] == s[i] by {
        assert(s[i] != '_');
    }
    assert(replace_char(replace_char(s, '-', '_'), '_', '-') =~= s);
}

/// The words of `s` written in snake_case, as `convert_case` computes it.
pub uninterp spec fn snake_case(s: Seq<char>) -> Seq<char>;

/// `convert_case`'s `to_case(Case::Snake)`: the words of the text in lower
/// case, joined by `_`. Its result is named, not stated.
#[verifier::external_body]
pub(crate) fn to_snake_case(s: &String) -> (r: String)
    ensures
        r@ == snake_case(s@),
{
    s.to_case(Case::Snake)
}

/// The context of a schema's root: its package name in snake_case, with no
/// namespace.
pub fn root_context(package_name: &String) -> (r: RefContext)
    ensures
        r@ == (RefContextV { package: snake_case(package_name@), namespace: Seq::empty() }),
{
    let r = RefContext::new(to_snake_case(package_name), Vec::new());
    assert(r@.namespace =~= Seq::<Seq<char>>::empty());
    r
}

} // verus!
