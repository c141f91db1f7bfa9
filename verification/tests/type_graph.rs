use kintsu_parser::defs::Spanned;
use kintsu_parser::paths::{NamedItemContext, RefContext};
use kintsu_parser::toks::IdentToken;
use kintsu_parser::type_graph::{EdgeKind, TypeDependency, TypeDependencyGraph};

fn test_ctx(name: &str) -> NamedItemContext {
    let item_name = Spanned::call_site(IdentToken::new(name.to_string()));
    NamedItemContext::new(item_name, RefContext { package: "test_package".to_string(), namespace: vec![] })
}

#[test]
fn test_simple_dependency() {
    let mut graph = TypeDependencyGraph::new();
    graph.add_type(
        test_ctx("A"),
        vec![TypeDependency::with_target(test_ctx("B"), EdgeKind::Required, vec!["field_b".to_string()])],
    );
    graph.add_type(test_ctx("B"), vec![]);
    let succ = graph.all_successors(&test_ctx("A"));
    assert_eq!(succ.len(), 1);
    assert!(succ[0].same(&test_ctx("B")));
    assert_eq!(graph.all_successors(&test_ctx("B")).len(), 0);
}

#[test]
fn test_terminating_cycle() {
    let mut graph = TypeDependencyGraph::new();
    graph.add_type(test_ctx("A"), vec![TypeDependency::with_target(test_ctx("B"), EdgeKind::Optional, vec!["b".to_string()])]);
    graph.add_type(test_ctx("B"), vec![TypeDependency::with_target(test_ctx("A"), EdgeKind::Required, vec!["a".to_string()])]);
    let cycle = vec![test_ctx("A"), test_ctx("B")];
    assert!(graph.has_terminating_edge(&cycle));
}

#[test]
fn types_test_non_terminating_cycle() {
    let mut graph = TypeDependencyGraph::new();
    graph.add_type(test_ctx("A"), vec![TypeDependency::with_target(test_ctx("B"), EdgeKind::Required, vec!["b".to_string()])]);
    graph.add_type(test_ctx("B"), vec![TypeDependency::with_target(test_ctx("A"), EdgeKind::Required, vec!["a".to_string()])]);
    let cycle = vec![test_ctx("A"), test_ctx("B")];
    assert!(!graph.has_terminating_edge(&cycle));
}

#[test]
fn test_required_vs_all_successors() {
    let mut graph = TypeDependencyGraph::new();
    graph.add_type(
        test_ctx("A"),
        vec![
            TypeDependency::with_target(test_ctx("B"), EdgeKind::Required, vec!["b".to_string()]),
            TypeDependency::with_target(test_ctx("C"), EdgeKind::Optional, vec!["c".to_string()]),
            TypeDependency::with_target(test_ctx("D"), EdgeKind::Array, vec!["d".to_string()]),
        ],
    );
    graph.add_type(test_ctx("B"), vec![]);
    graph.add_type(test_ctx("C"), vec![]);
    graph.add_type(test_ctx("D"), vec![]);
    let all = graph.all_successors(&test_ctx("A"));
    assert_eq!(all.len(), 3);
    let required = graph.required_successors(&test_ctx("A"));
    assert_eq!(required.len(), 1);
    assert!(required[0].same(&test_ctx("B")));
}

#[test]
fn successors_name_only_types_of_the_graph() {
    let mut graph = TypeDependencyGraph::new();
    graph.add_type(
        test_ctx("A"),
        vec![TypeDependency::with_candidates(vec![test_ctx("Missing"), test_ctx("B")], EdgeKind::Required, vec![])],
    );
    graph.add_type(test_ctx("B"), vec![]);
    let succ = graph.successors(&test_ctx("A"), true);
    assert_eq!(succ.len(), 1);
    assert!(succ[0].same(&test_ctx("B")));
    assert_eq!(graph.successors(&test_ctx("Nope"), false).len(), 0);
}

#[test]
fn adding_a_type_again_replaces_its_dependencies() {
    let mut graph = TypeDependencyGraph::new();
    graph.add_type(test_ctx("A"), vec![TypeDependency::with_target(test_ctx("B"), EdgeKind::Required, vec![])]);
    graph.add_type(test_ctx("B"), vec![]);
    graph.add_type(test_ctx("A"), vec![]);
    assert_eq!(graph.all_successors(&test_ctx("A")).len(), 0);
    assert_eq!(graph.type_names().len(), 2);
    assert!(graph.get_node(&test_ctx("A")).is_some());
    assert!(graph.get_node(&test_ctx("Z")).is_none());
    assert!(EdgeKind::Array.is_terminating());
    assert!(!EdgeKind::Required.is_terminating());
}

fn names(v: &[NamedItemContext]) -> Vec<String> {
    v.iter().map(|n| n.name.value.0.clone()).collect()
}

fn edge(to: &str, kind: EdgeKind, path: &[&str]) -> TypeDependency {
    TypeDependency::with_target(test_ctx(to), kind, path.iter().map(|s| s.to_string()).collect())
}

#[test]
fn type_names_come_in_path_order() {
    let mut graph = TypeDependencyGraph::new();
    graph.add_type(test_ctx("B"), vec![]);
    graph.add_type(test_ctx("A"), vec![]);
    graph.add_type(test_ctx("C"), vec![]);
    assert_eq!(names(&graph.type_names()), vec!["A", "B", "C"]);
}

#[test]
fn test_extract_empty_graph() {
    let graph = TypeDependencyGraph::new();
    assert_eq!(graph.type_names().len(), 0);
}

#[test]
fn test_struct_with_type_reference() {
    let mut graph = TypeDependencyGraph::new();
    graph.add_type(test_ctx("Company"), vec![edge("Person", EdgeKind::Required, &["ceo"])]);
    graph.add_type(test_ctx("Person"), vec![]);
    assert_eq!(graph.type_names().len(), 2);
    assert_eq!(names(&graph.all_successors(&test_ctx("Company"))), vec!["Person"]);
    assert_eq!(names(&graph.required_successors(&test_ctx("Company"))), vec!["Person"]);
}

#[test]
fn test_optional_field_dependency() {
    let mut graph = TypeDependencyGraph::new();
    graph.add_type(test_ctx("User"), vec![edge("Profile", EdgeKind::Optional, &["profile"])]);
    graph.add_type(test_ctx("Profile"), vec![]);
    assert_eq!(names(&graph.all_successors(&test_ctx("User"))), vec!["Profile"]);
    assert_eq!(graph.required_successors(&test_ctx("User")).len(), 0);
}

#[test]
fn test_array_dependency() {
    let mut graph = TypeDependencyGraph::new();
    graph.add_type(test_ctx("Team"), vec![edge("Person", EdgeKind::Array, &["members"])]);
    graph.add_type(test_ctx("Person"), vec![]);
    assert_eq!(names(&graph.all_successors(&test_ctx("Team"))), vec!["Person"]);
    assert_eq!(graph.required_successors(&test_ctx("Team")).len(), 0);
}

#[test]
fn test_mutual_recursion_optional() {
    let mut graph = TypeDependencyGraph::new();
    graph.add_type(test_ctx("A"), vec![edge("B", EdgeKind::Optional, &["b"])]);
    graph.add_type(test_ctx("B"), vec![edge("A", EdgeKind::Optional, &["a"])]);
    assert_eq!(graph.type_names().len(), 2);
    let cycle = vec![test_ctx("A"), test_ctx("B")];
    assert!(graph.has_terminating_edge(&cycle));
}

#[test]
fn extract_test_non_terminating_cycle() {
    let mut graph = TypeDependencyGraph::new();
    graph.add_type(test_ctx("A"), vec![edge("B", EdgeKind::Required, &["b"])]);
    graph.add_type(test_ctx("B"), vec![edge("A", EdgeKind::Required, &["a"])]);
    let cycle = vec![test_ctx("A"), test_ctx("B")];
    assert!(!graph.has_terminating_edge(&cycle));
}

#[test]
fn test_diamond_dependency() {
    let mut graph = TypeDependencyGraph::new();
    graph.add_type(test_ctx("A"), vec![]);
    graph.add_type(test_ctx("B"), vec![edge("A", EdgeKind::Required, &["a"])]);
    graph.add_type(test_ctx("C"), vec![edge("A", EdgeKind::Required, &["a"])]);
    graph.add_type(test_ctx("D"), vec![edge("B", EdgeKind::Required, &["b"]), edge("C", EdgeKind::Required, &["c"])]);
    assert_eq!(graph.type_names().len(), 4);
    assert_eq!(graph.all_successors(&test_ctx("D")).len(), 2);
    assert_eq!(graph.all_successors(&test_ctx("B")).len(), 1);
    assert_eq!(graph.all_successors(&test_ctx("C")).len(), 1);
    assert_eq!(graph.all_successors(&test_ctx("A")).len(), 0);
}

#[test]
fn test_type_alias_chain() {
    let mut graph = TypeDependencyGraph::new();
    graph.add_type(test_ctx("A"), vec![edge("B", EdgeKind::Required, &[])]);
    graph.add_type(test_ctx("B"), vec![edge("C", EdgeKind::Required, &[])]);
    graph.add_type(test_ctx("C"), vec![]);
    assert_eq!(graph.type_names().len(), 3);
    assert_eq!(names(&graph.all_successors(&test_ctx("A"))), vec!["B"]);
    assert_eq!(names(&graph.all_successors(&test_ctx("B"))), vec!["C"]);
}

#[test]
fn test_oneof_variants_optional() {
    let mut graph = TypeDependencyGraph::new();
    graph.add_type(test_ctx("Result"), vec![edge("Value", EdgeKind::Optional, &["ok"]), edge("Error", EdgeKind::Optional, &["err"])]);
    graph.add_type(test_ctx("Value"), vec![]);
    graph.add_type(test_ctx("Error"), vec![]);
    assert_eq!(graph.all_successors(&test_ctx("Result")).len(), 2);
    assert_eq!(graph.required_successors(&test_ctx("Result")).len(), 0);
}

#[test]
fn test_union_members_optional() {
    let mut graph = TypeDependencyGraph::new();
    graph.add_type(
        test_ctx("Combined"),
        vec![
            edge("A", EdgeKind::Optional, &["union_0"]),
            edge("B", EdgeKind::Optional, &["union_1"]),
            edge("C", EdgeKind::Optional, &["union_2"]),
        ],
    );
    graph.add_type(test_ctx("A"), vec![]);
    graph.add_type(test_ctx("B"), vec![]);
    graph.add_type(test_ctx("C"), vec![]);
    assert_eq!(graph.all_successors(&test_ctx("Combined")).len(), 3);
    assert_eq!(graph.required_successors(&test_ctx("Combined")).len(), 0);
}

#[test]
fn test_nested_union_field_paths() {
    let mut graph = TypeDependencyGraph::new();
    graph.add_type(
        test_ctx("Complex"),
        vec![
            edge("A", EdgeKind::Optional, &["union_0", "nested_0"]),
            edge("B", EdgeKind::Optional, &["union_0", "nested_1"]),
            edge("C", EdgeKind::Optional, &["union_1", "nested_0"]),
            edge("D", EdgeKind::Optional, &["union_1", "nested_1"]),
        ],
    );
    graph.add_type(test_ctx("A"), vec![]);
    graph.add_type(test_ctx("B"), vec![]);
    graph.add_type(test_ctx("C"), vec![]);
    graph.add_type(test_ctx("D"), vec![]);
    assert_eq!(graph.all_successors(&test_ctx("Complex")).len(), 4);
    if let Some(node) = graph.get_node(&test_ctx("Complex")) {
        assert!(node.iter().any(|d| d.field_path.len() == 2));
    }
}

#[test]
fn test_anonymous_struct_nested_paths() {
    let mut graph = TypeDependencyGraph::new();
    graph.add_type(test_ctx("Response"), vec![edge("ErrorDetails", EdgeKind::Optional, &["err", "details"])]);
    if let Some(node) = graph.get_node(&test_ctx("Response")) {
        assert_eq!(node[0].field_path.len(), 2);
        assert_eq!(node[0].field_path[0], "err");
        assert_eq!(node[0].field_path[1], "details");
    }
}

#[test]
fn test_operation_param_and_return_paths() {
    let mut graph = TypeDependencyGraph::new();
    graph.add_type(
        test_ctx("create"),
        vec![
            edge("User", EdgeKind::Required, &["param:user"]),
            edge("Org", EdgeKind::Required, &["param:org"]),
            edge("Result", EdgeKind::Required, &["return"]),
        ],
    );
    graph.add_type(test_ctx("User"), vec![]);
    graph.add_type(test_ctx("Org"), vec![]);
    graph.add_type(test_ctx("Result"), vec![]);
    assert_eq!(graph.all_successors(&test_ctx("create")).len(), 3);
    if let Some(node) = graph.get_node(&test_ctx("create")) {
        assert!(node.iter().any(|d| d.field_path[0].starts_with("param:")));
        assert!(node.iter().any(|d| d.field_path[0] == "return"));
    }
}

#[test]
fn test_disconnected_components() {
    let mut graph = TypeDependencyGraph::new();
    graph.add_type(test_ctx("A"), vec![edge("B", EdgeKind::Required, &[])]);
    graph.add_type(test_ctx("B"), vec![]);
    graph.add_type(test_ctx("X"), vec![edge("Y", EdgeKind::Required, &[])]);
    graph.add_type(test_ctx("Y"), vec![]);
    assert_eq!(graph.type_names().len(), 4);
    assert_eq!(names(&graph.all_successors(&test_ctx("A"))), vec!["B"]);
    assert_eq!(names(&graph.all_successors(&test_ctx("X"))), vec!["Y"]);
    assert!(!graph.all_successors(&test_ctx("A")).iter().any(|n| n.same(&test_ctx("X"))));
    assert!(!graph.all_successors(&test_ctx("A")).iter().any(|n| n.same(&test_ctx("Y"))));
}

#[test]
fn test_result_type_makes_optional() {
    let mut graph = TypeDependencyGraph::new();
    graph.add_type(test_ctx("Response"), vec![edge("Value", EdgeKind::Optional, &["data"])]);
    graph.add_type(test_ctx("Value"), vec![]);
    assert_eq!(names(&graph.all_successors(&test_ctx("Response"))), vec!["Value"]);
    assert_eq!(graph.required_successors(&test_ctx("Response")).len(), 0);
}

#[test]
fn test_mixed_edge_kinds() {
    let mut graph = TypeDependencyGraph::new();
    graph.add_type(
        test_ctx("Mixed"),
        vec![
            edge("Required", EdgeKind::Required, &["req"]),
            edge("Optional", EdgeKind::Optional, &["opt"]),
            edge("Array", EdgeKind::Array, &["arr"]),
        ],
    );
    graph.add_type(test_ctx("Required"), vec![]);
    graph.add_type(test_ctx("Optional"), vec![]);
    graph.add_type(test_ctx("Array"), vec![]);
    assert_eq!(graph.all_successors(&test_ctx("Mixed")).len(), 3);
    assert_eq!(graph.required_successors(&test_ctx("Mixed")).len(), 1);
    assert!(graph.required_successors(&test_ctx("Mixed"))[0].same(&test_ctx("Required")));
}

#[test]
fn a_group_without_a_way_out_is_reported_by_name() {
    let mut graph = TypeDependencyGraph::new();
    graph.add_type(test_ctx("A"), vec![TypeDependency::with_target(test_ctx("B"), EdgeKind::Required, vec!["b".to_string()])]);
    graph.add_type(test_ctx("B"), vec![TypeDependency::with_target(test_ctx("A"), EdgeKind::Required, vec!["a".to_string()])]);
    graph.add_type(test_ctx("C"), vec![]);
    let groups = vec![vec![test_ctx("C")], vec![test_ctx("A"), test_ctx("B")]];
    let err = kintsu_parser::type_graph::check_type_cycles(&graph, &groups).unwrap_err();
    assert_eq!(err, vec!["test_package::A".to_string(), "test_package::B".to_string()]);
}

#[test]
fn a_group_with_an_optional_edge_passes() {
    let mut graph = TypeDependencyGraph::new();
    graph.add_type(test_ctx("A"), vec![TypeDependency::with_target(test_ctx("B"), EdgeKind::Optional, vec!["b".to_string()])]);
    graph.add_type(test_ctx("B"), vec![TypeDependency::with_target(test_ctx("A"), EdgeKind::Required, vec!["a".to_string()])]);
    let groups = vec![vec![test_ctx("A"), test_ctx("B")]];
    assert!(kintsu_parser::type_graph::check_type_cycles(&graph, &groups).is_ok());
}

#[test]
fn successors_are_the_graph_keys_with_their_definition_spans() {
    let at = |name: &str, start: usize| {
        NamedItemContext::new(Spanned::new(start, start + 1, IdentToken::new(name.to_string())), RefContext { package: "test_package".to_string(), namespace: vec![] })
    };
    let mut graph = TypeDependencyGraph::new();
    graph.add_type(at("A", 1), vec![TypeDependency::with_target(at("B", 50), EdgeKind::Required, vec!["b".to_string()])]);
    graph.add_type(at("B", 10), vec![]);
    let succ = graph.successors(&test_ctx("A"), false);
    assert_eq!(succ.len(), 1);
    assert_eq!(succ[0].name.span, kintsu_parser::defs::Span::Known(kintsu_parser::defs::RawSpan { start: 10, end: 11 }));
}

#[test]
fn detect_type_cycles_reports_a_required_cycle() {
    let mut graph = TypeDependencyGraph::new();
    graph.add_type(test_ctx("A"), vec![TypeDependency::with_target(test_ctx("B"), EdgeKind::Required, vec!["b".to_string()])]);
    graph.add_type(test_ctx("B"), vec![TypeDependency::with_target(test_ctx("A"), EdgeKind::Required, vec!["a".to_string()])]);
    graph.add_type(test_ctx("C"), vec![TypeDependency::with_target(test_ctx("A"), EdgeKind::Required, vec!["a".to_string()])]);
    let mut err = kintsu_parser::type_graph::detect_type_cycles(&graph).unwrap_err();
    err.sort();
    assert_eq!(err, vec!["test_package::A".to_string(), "test_package::B".to_string()]);
}

#[test]
fn detect_type_cycles_lets_an_optional_cycle_pass() {
    let mut graph = TypeDependencyGraph::new();
    graph.add_type(test_ctx("A"), vec![TypeDependency::with_target(test_ctx("B"), EdgeKind::Optional, vec!["b".to_string()])]);
    graph.add_type(test_ctx("B"), vec![TypeDependency::with_target(test_ctx("A"), EdgeKind::Required, vec!["a".to_string()])]);
    assert!(kintsu_parser::type_graph::detect_type_cycles(&graph).is_ok());
}

#[test]
fn detect_type_cycles_lets_a_type_require_itself() {
    let mut graph = TypeDependencyGraph::new();
    graph.add_type(test_ctx("A"), vec![TypeDependency::with_target(test_ctx("A"), EdgeKind::Required, vec!["a".to_string()])]);
    graph.add_type(test_ctx("B"), vec![]);
    assert!(kintsu_parser::type_graph::detect_type_cycles(&graph).is_ok());
    assert!(kintsu_parser::type_graph::detect_type_cycles(&TypeDependencyGraph::new()).is_ok());
}

#[test]
fn registration_groups_put_dependents_before_their_dependencies() {
    let mut graph = TypeDependencyGraph::new();
    graph.add_type(test_ctx("A"), vec![TypeDependency::with_target(test_ctx("B"), EdgeKind::Required, vec!["b".to_string()])]);
    graph.add_type(test_ctx("B"), vec![TypeDependency::with_target(test_ctx("C"), EdgeKind::Array, vec!["c".to_string()])]);
    graph.add_type(test_ctx("C"), vec![]);
    let groups = kintsu_parser::type_graph::registration_groups(&graph).unwrap();
    assert_eq!(groups.len(), 3);
    assert!(groups[0].len() == 1 && groups[0][0].same(&test_ctx("A")));
    assert!(groups[1].len() == 1 && groups[1][0].same(&test_ctx("B")));
    assert!(groups[2].len() == 1 && groups[2][0].same(&test_ctx("C")));
    assert!(kintsu_parser::type_graph::registration_groups(&TypeDependencyGraph::new()).unwrap().is_empty());
}

#[test]
fn registration_groups_refuse_a_required_cycle_and_an_optional_one() {
    let mut graph = TypeDependencyGraph::new();
    graph.add_type(test_ctx("A"), vec![TypeDependency::with_target(test_ctx("B"), EdgeKind::Required, vec!["b".to_string()])]);
    graph.add_type(test_ctx("B"), vec![TypeDependency::with_target(test_ctx("A"), EdgeKind::Required, vec!["a".to_string()])]);
    match kintsu_parser::type_graph::registration_groups(&graph) {
        Err(kintsu_parser::type_graph::RegistrationOrderError::TypeCircularDependency { mut types }) => {
            types.sort();
            assert_eq!(types, vec!["test_package::A".to_string(), "test_package::B".to_string()]);
        },
        other => panic!("unexpected {:?}", other.is_ok()),
    }
    let mut graph = TypeDependencyGraph::new();
    graph.add_type(test_ctx("A"), vec![TypeDependency::with_target(test_ctx("B"), EdgeKind::Optional, vec!["b".to_string()])]);
    graph.add_type(test_ctx("B"), vec![TypeDependency::with_target(test_ctx("A"), EdgeKind::Required, vec!["a".to_string()])]);
    assert!(matches!(
        kintsu_parser::type_graph::registration_groups(&graph),
        Err(kintsu_parser::type_graph::RegistrationOrderError::Unsortable)
    ));
}
