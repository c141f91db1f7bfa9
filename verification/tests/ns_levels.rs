use kintsu_parser::common::{FromNamedSource, NamespaceCtx};
use kintsu_parser::ns_levels::namespace_levels;
use kintsu_parser::ordmap::StrMap;
use kintsu_parser::paths::{RefContext, RefOrItemContext};

fn import(package: &str, path: &[&str]) -> FromNamedSource<RefOrItemContext> {
    FromNamedSource {
        source: "schema.ks".to_string(),
        value: RefOrItemContext::Ref(RefContext::new(
            package.to_string(),
            path.iter().map(|s| s.to_string()).collect(),
        )),
    }
}

fn namespace(name: &str, imports: Vec<FromNamedSource<RefOrItemContext>>) -> NamespaceCtx {
    NamespaceCtx { sources: kintsu_parser::ordmap::StrMap::new(), comments: vec![], tag: None, namespace: FromNamedSource { source: String::new(), value: kintsu_parser::defs::Spanned::call_site(kintsu_parser::toks::IdentToken::new(String::from("ns"))) },
        ctx: RefContext::new("pkg".to_string(), vec![name.to_string()]),
        error: None,
        version: None,
        imports,
        children: vec![], resolved_versions: kintsu_parser::ordmap::StrMap::new(), resolved_errors: kintsu_parser::ordmap::StrMap::new(), resolved_aliases: kintsu_parser::ordmap::StrMap::new(),
    }
}

fn schema(spaces: Vec<(&str, Vec<FromNamedSource<RefOrItemContext>>)>) -> StrMap<NamespaceCtx> {
    let mut m = StrMap::new();
    for (name, imports) in spaces {
        m.insert(name.to_string(), namespace(name, imports));
    }
    m
}

fn levels(spaces: Vec<(&str, Vec<FromNamedSource<RefOrItemContext>>)>) -> Vec<Vec<String>> {
    namespace_levels(&"pkg".to_string(), &schema(spaces))
}

fn names(groups: &[&[&str]]) -> Vec<Vec<String>> {
    groups.iter().map(|g| g.iter().map(|s| s.to_string()).collect()).collect()
}

#[test]
fn no_namespaces_no_levels() {
    assert!(levels(vec![]).is_empty());
}

#[test]
fn independent_namespaces_share_depth_zero() {
    let r = levels(vec![("b", vec![]), ("a", vec![])]);
    assert_eq!(r, names(&[&["a", "b"]]));
}

#[test]
fn imported_namespace_comes_one_level_deeper() {
    // api imports the top namespace "models" of the same package
    let r = levels(vec![
        ("api", vec![import("pkg", &["models", "user"])]),
        ("models", vec![]),
    ]);
    assert_eq!(r, names(&[&["api"], &["models"]]));
}

#[test]
fn shortest_chain_decides_the_depth() {
    // a imports b and c, b imports c: c is one import away from a
    let r = levels(vec![
        ("a", vec![import("pkg", &["b"]), import("pkg", &["c"])]),
        ("b", vec![import("pkg", &["c"])]),
        ("c", vec![]),
    ]);
    assert_eq!(r, names(&[&["a"], &["b", "c"]]));
}

#[test]
fn imports_of_other_packages_do_not_count() {
    let r = levels(vec![
        ("a", vec![import("other", &["b"]), import("pkg", &[]), import("pkg", &["missing"])]),
        ("b", vec![]),
    ]);
    assert_eq!(r, names(&[&["a", "b"]]));
}

#[test]
fn every_namespace_imported_all_start_at_zero() {
    let r = levels(vec![
        ("a", vec![import("pkg", &["b"])]),
        ("b", vec![import("pkg", &["a"])]),
    ]);
    assert_eq!(r, names(&[&["a", "b"]]));
}

#[test]
fn namespace_reached_by_no_chain_is_left_out() {
    // c starts; a and b import each other, and nothing starting reaches them
    let r = levels(vec![
        ("a", vec![import("pkg", &["b"])]),
        ("b", vec![import("pkg", &["a"])]),
        ("c", vec![]),
    ]);
    assert_eq!(r, names(&[&["c"]]));
}
