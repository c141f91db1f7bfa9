use kintsu_parser::aliases::{normalize_cycle, AliasGraph};
use kintsu_parser::ast::{Array, PathOrIdent, Type};
use kintsu_parser::defs::Spanned;
use kintsu_parser::toks::{IdentToken, Path};

fn ident(name: &str) -> Type {
    Type::Ident { to: PathOrIdent::Ident(Spanned::call_site(IdentToken::new(name.to_string()))) }
}

fn array_of(t: Type) -> Type {
    Type::Array { ty: Box::new(Spanned::call_site(Array::Unsized { ty: Box::new(Spanned::call_site(t)) })) }
}

fn strings(v: &[&str]) -> Vec<String> {
    v.iter().map(|s| s.to_string()).collect()
}

#[test]
fn normalize_starts_at_smallest() {
    let (chain, assoc) = normalize_cycle(strings(&["c", "a", "b"]), vec![3, 1, 2]);
    assert_eq!(chain, strings(&["a", "b", "c"]));
    assert_eq!(assoc, vec![1, 2, 3]);
    let (chain, assoc) = normalize_cycle(Vec::new(), vec![7]);
    assert!(chain.is_empty());
    assert_eq!(assoc, vec![7]);
}

#[test]
fn normalize_same_from_every_start() {
    let a = normalize_cycle(strings(&["b", "c", "a"]), vec![0u8, 0, 0]).0;
    let b = normalize_cycle(strings(&["c", "a", "b"]), vec![0u8, 0, 0]).0;
    let c = normalize_cycle(strings(&["a", "b", "c"]), vec![0u8, 0, 0]).0;
    assert_eq!(a, c);
    assert_eq!(b, c);
    // normalizing twice changes nothing
    assert_eq!(normalize_cycle(c.clone(), vec![0u8, 0, 0]).0, c);
}

#[test]
fn dependencies_of_a_type() {
    let path = Type::Ident {
        to: PathOrIdent::Path(Spanned::call_site(Path::Ambiguous { bits: strings(&["pkg", "X"]) })),
    };
    let t = Type::UnionOr {
        lhs: Box::new(Spanned::call_site(array_of(ident("A")))),
        rhs: Box::new(Spanned::call_site(Type::Paren { ty: Box::new(Spanned::call_site(ident("B"))) })),
    };
    assert_eq!(AliasGraph::extract_type_dependencies(&t), strings(&["A", "B"]));
    assert!(AliasGraph::extract_type_dependencies(&path).is_empty());
}

fn graph(pairs: &[(&str, Type)]) -> AliasGraph {
    let mut g = AliasGraph::new();
    for (name, t) in pairs {
        let copy = kintsu_parser::ast_ops::dup_type(t);
        g.add_alias(name.to_string(), Spanned::new(1, 2, copy), format!("{}.ks", name));
    }
    g
}

#[test]
fn no_cycle_and_resolution_order() {
    let g = graph(&[("C", ident("B")), ("B", ident("A")), ("A", ident("Struct1"))]);
    assert!(g.detect_cycles().is_ok());
    let order = g.topological_sort().ok().unwrap();
    assert_eq!(order, strings(&["A", "B", "C"]));
}

#[test]
fn cycle_is_reported_from_smallest_name() {
    let g = graph(&[("Z", ident("Y")), ("Y", ident("X")), ("X", ident("Z")), ("W", ident("X"))]);
    let err = g.detect_cycles().err().unwrap();
    assert_eq!(err.chain, strings(&["X", "Z", "Y"]));
    assert_eq!(err.places.len(), 3);
    assert_eq!(err.places[0].1, "X.ks");
    let topo = g.topological_sort().err().unwrap();
    assert_eq!(topo.chain, strings(&["<uncaught error>"]));
}

#[test]
fn self_reference_is_a_cycle() {
    let g = graph(&[("Loop", array_of(ident("Loop")))]);
    let err = g.detect_cycles().err().unwrap();
    assert_eq!(err.chain, strings(&["Loop"]));
}

#[test]
fn independent_aliases_in_name_order() {
    let g = graph(&[("b", ident("x")), ("a", ident("y")), ("c", ident("a"))]);
    assert_eq!(g.topological_sort().ok().unwrap(), strings(&["a", "b", "c"]));
}
