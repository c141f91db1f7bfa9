use kintsu_parser::common::{FromNamedSource, NamespaceCtx};
use kintsu_parser::ordmap::StrMap;
use kintsu_parser::paths::{RefContext, RefOrItemContext};
use kintsu_parser::schema_graph::{extract_imports, pretty_print_groups, CacheKey, Import, SchemaDependencyGraph, SchemaGraphError, Version};

fn schema_id(name: &str) -> CacheKey {
    CacheKey::new(name.to_string(), Version::new(1, 0, 0), None)
}

fn import_resolved(name: &str, resolved: CacheKey) -> Import {
    Import {
        name: name.to_string(),
        resolved_id: Some(resolved),
    }
}

fn import_by_name(name: &str) -> Import {
    Import {
        name: name.to_string(),
        resolved_id: None,
    }
}

#[test]
fn test_no_dependencies() {
    let mut graph = SchemaDependencyGraph::new();

    graph.add_schema(schema_id("schema_a"), vec![]);
    graph.add_schema(schema_id("schema_b"), vec![]);

    graph.build_dependencies();

    assert_eq!(graph.successors(&schema_id("schema_a")).len(), 0);
    assert_eq!(graph.successors(&schema_id("schema_b")).len(), 0);

    let groups = graph.topological_groups().unwrap();
    assert_eq!(groups.len(), 1);
    assert_eq!(groups[0].len(), 2);
    let ord = groups[0].iter().map(|id| id.display()).collect::<Vec<_>>();

    assert_eq!(ord, vec!["schema_a@1.0.0", "schema_b@1.0.0"])
}

#[test]
fn test_linear_dependencies() {
    let mut graph = SchemaDependencyGraph::new();

    let schema_a_id = schema_id("schema_a");
    let schema_b_id = schema_id("schema_b");
    let schema_c_id = schema_id("schema_c");

    // A depends on B
    graph.add_schema(
        schema_a_id.duplicate(),
        vec![import_resolved("schema_b", schema_b_id.duplicate())],
    );
    // B depends on C
    graph.add_schema(
        schema_b_id.duplicate(),
        vec![import_resolved("schema_c", schema_c_id.duplicate())],
    );
    // C has no dependencies
    graph.add_schema(schema_c_id.duplicate(), vec![]);

    graph.build_dependencies();

    let c_successors = graph.successors(&schema_c_id);
    assert_eq!(c_successors.len(), 1);
    assert!(c_successors.contains(&schema_b_id));

    let b_successors = graph.successors(&schema_b_id);
    assert_eq!(b_successors.len(), 1);
    assert!(b_successors.contains(&schema_a_id));

    assert_eq!(graph.successors(&schema_a_id).len(), 0);
}

#[test]
fn test_diamond_dependencies() {
    let mut graph = SchemaDependencyGraph::new();

    let schema_a_id = schema_id("schema_a");
    let schema_b_id = schema_id("schema_b");
    let schema_c_id = schema_id("schema_c");
    let schema_d_id = schema_id("schema_d");

    // D depends on B and C
    graph.add_schema(
        schema_d_id.duplicate(),
        vec![
            import_resolved("schema_b", schema_b_id.duplicate()),
            import_resolved("schema_c", schema_c_id.duplicate()),
        ],
    );
    // B depends on A
    graph.add_schema(
        schema_b_id.duplicate(),
        vec![import_resolved("schema_a", schema_a_id.duplicate())],
    );
    // C depends on A
    graph.add_schema(
        schema_c_id.duplicate(),
        vec![import_resolved("schema_a", schema_a_id.duplicate())],
    );
    // A has no dependencies
    graph.add_schema(schema_a_id.duplicate(), vec![]);

    graph.build_dependencies();

    let a_successors = graph.successors(&schema_a_id);
    assert_eq!(a_successors.len(), 2);
    assert!(a_successors.contains(&schema_b_id));
    assert!(a_successors.contains(&schema_c_id));

    let b_successors = graph.successors(&schema_b_id);
    assert_eq!(b_successors.len(), 1);
    assert!(b_successors.contains(&schema_d_id));

    let c_successors = graph.successors(&schema_c_id);
    assert_eq!(c_successors.len(), 1);
    assert!(c_successors.contains(&schema_d_id));

    assert_eq!(graph.successors(&schema_d_id).len(), 0);
}

#[test]
fn test_circular_dependency_detection() {
    let mut graph = SchemaDependencyGraph::new();

    let schema_a_id = schema_id("schema_a");
    let schema_b_id = schema_id("schema_b");

    // A depends on B
    graph.add_schema(
        schema_a_id.duplicate(),
        vec![import_resolved("schema_b", schema_b_id.duplicate())],
    );
    // B depends on A (circular!)
    graph.add_schema(
        schema_b_id.duplicate(),
        vec![import_resolved("schema_a", schema_a_id.duplicate())],
    );

    graph.build_dependencies();

    let cycle = vec![schema_a_id, schema_b_id];
    assert!(graph.has_circular_dependency(&cycle));
}

#[test]
fn test_topological_groups_empty() {
    let graph = SchemaDependencyGraph::new();
    let groups = graph.topological_groups().unwrap();
    assert_eq!(groups.len(), 0, "Empty graph should have no groups");
}

#[test]
fn test_topological_groups_single_schema() {
    let mut graph = SchemaDependencyGraph::new();
    let key = CacheKey::new("test".to_string(), Version::new(1, 0, 0), None);
    graph.add_schema(key.duplicate(), vec![]);
    graph.build_dependencies();

    let groups = graph.topological_groups().unwrap();
    assert_eq!(groups.len(), 1, "Single schema should be one group");
    assert_eq!(groups[0].len(), 1, "Group should contain one schema");
    assert!(groups[0][0] == key);
}

#[test]
fn test_topological_groups_linear_dependency() {
    let mut graph = SchemaDependencyGraph::new();

    let key_a = CacheKey::new("a".to_string(), Version::new(1, 0, 0), None);
    let key_b = CacheKey::new("b".to_string(), Version::new(1, 0, 0), None);

    // b depends on a
    graph.add_schema(key_a.duplicate(), vec![]);
    graph.add_schema(key_b.duplicate(), vec![import_by_name("a")]);
    graph.build_dependencies();

    let groups = graph.topological_groups().unwrap();
    assert_eq!(groups.len(), 2, "Linear dependency should have 2 levels");
    assert_eq!(groups[0].len(), 1, "Level 0 should have 1 schema");
    assert_eq!(groups[1].len(), 1, "Level 1 should have 1 schema");

    assert!(groups[0][0] == key_a, "Level 0 should be schema 'a' (no deps)");
    assert!(groups[1][0] == key_b, "Level 1 should be schema 'b' (depends on a)");
}

#[test]
fn test_topological_groups_parallel_schemas() {
    let mut graph = SchemaDependencyGraph::new();

    let key_a = CacheKey::new("a".to_string(), Version::new(1, 0, 0), None);
    let key_b = CacheKey::new("b".to_string(), Version::new(1, 0, 0), None);
    let key_c = CacheKey::new("c".to_string(), Version::new(1, 0, 0), None);

    graph.add_schema(key_a.duplicate(), vec![]);
    graph.add_schema(key_b.duplicate(), vec![]);
    graph.add_schema(key_c.duplicate(), vec![]);
    graph.build_dependencies();

    let groups = graph.topological_groups().unwrap();
    assert_eq!(groups.len(), 1, "Independent schemas should be in one group");
    assert_eq!(groups[0].len(), 3, "All 3 schemas can compile in parallel");

    assert!(groups[0].contains(&key_a));
    assert!(groups[0].contains(&key_b));
    assert!(groups[0].contains(&key_c));
}

#[test]
fn cycle_reported_by_name() {
    // a has no dependencies; b and c wait on each other
    let mut graph = SchemaDependencyGraph::new();
    graph.add_schema(schema_id("a"), vec![]);
    graph.add_schema(schema_id("b"), vec![import_by_name("c")]);
    graph.add_schema(schema_id("c"), vec![import_by_name("b")]);
    graph.build_dependencies();
    match graph.topological_groups() {
        Err(SchemaGraphError::SchemaCircularDependency { schemas }) => {
            assert_eq!(schemas, vec!["b".to_string(), "c".to_string()]);
        }
        Ok(_) => panic!("a circle of dependencies has no order"),
    }
}

#[test]
fn dependency_outside_the_graph_leaves_no_level() {
    let mut graph = SchemaDependencyGraph::new();
    graph.add_schema(schema_id("a"), vec![import_resolved("x", schema_id("x"))]);
    graph.build_dependencies();
    match graph.topological_groups() {
        Err(SchemaGraphError::SchemaCircularDependency { schemas }) => {
            assert_eq!(schemas, vec!["a".to_string()]);
        }
        Ok(_) => panic!("a schema waiting on an unknown schema has no level"),
    }
}

#[test]
fn longest_chain_decides_the_level() {
    // d depends on a directly and on a through b and c
    let mut graph = SchemaDependencyGraph::new();
    graph.add_schema(schema_id("a"), vec![]);
    graph.add_schema(schema_id("b"), vec![import_by_name("a")]);
    graph.add_schema(schema_id("c"), vec![import_by_name("b")]);
    graph.add_schema(schema_id("d"), vec![import_by_name("a"), import_by_name("c")]);
    graph.add_schema(schema_id("e"), vec![]);
    graph.build_dependencies();
    let groups = graph.topological_groups().unwrap();
    let names: Vec<Vec<String>> = groups
        .iter()
        .map(|g| g.iter().map(|k| k.package_name.clone()).collect())
        .collect();
    assert_eq!(
        names,
        vec![
            vec!["a".to_string(), "e".to_string()],
            vec!["b".to_string()],
            vec!["c".to_string()],
            vec!["d".to_string()],
        ]
    );
}

#[test]
fn no_circle_between_independent_schemas() {
    let mut graph = SchemaDependencyGraph::new();
    graph.add_schema(schema_id("a"), vec![]);
    graph.add_schema(schema_id("b"), vec![import_by_name("a")]);
    graph.build_dependencies();
    assert!(!graph.has_circular_dependency(&[schema_id("a"), schema_id("c")]));
    assert!(graph.has_circular_dependency(&[schema_id("a"), schema_id("b")]));
}

#[test]
fn self_import_is_no_dependency() {
    let mut graph = SchemaDependencyGraph::new();
    graph.add_schema(schema_id("a"), vec![import_by_name("a"), import_resolved("a", schema_id("a"))]);
    graph.build_dependencies();
    assert_eq!(graph.get_node(&schema_id("a")).unwrap().depends_on.len(), 0);
}

#[test]
fn import_by_name_takes_the_latest_version() {
    let old = CacheKey::new("lib".to_string(), Version::new(1, 2, 0), None);
    let new = CacheKey::new("lib".to_string(), Version::new(1, 10, 0), None);
    let mut graph = SchemaDependencyGraph::new();
    graph.add_schema(new.duplicate(), vec![]);
    graph.add_schema(old.duplicate(), vec![]);
    graph.add_schema(schema_id("app"), vec![import_by_name("lib")]);
    graph.build_dependencies();
    let node = graph.get_node(&schema_id("app")).unwrap();
    assert_eq!(node.depends_on.len(), 1);
    assert!(node.depends_on[0] == new);
}

#[test]
fn adding_a_schema_again_replaces_it() {
    let mut graph = SchemaDependencyGraph::new();
    graph.add_schema(schema_id("a"), vec![import_by_name("b")]);
    graph.add_schema(schema_id("a"), vec![]);
    let node = graph.get_node(&schema_id("a")).unwrap();
    assert_eq!(node.imports.len(), 0);
    assert!(graph.get_node(&schema_id("b")).is_none());
}

#[test]
fn key_text_shows_the_hash() {
    let key = CacheKey::new("pkg".to_string(), Version::new(2, 13, 7), Some("abc".to_string()));
    assert_eq!(key.display(), "pkg@2.13.7:abc");
}

#[test]
fn test_extract_imports_basic() {
    let imports = [
        Import {
            name: "foo".to_string(),
            resolved_id: None,
        },
        Import {
            name: "bar".to_string(),
            resolved_id: None,
        },
    ];

    assert_eq!(imports.len(), 2);
    assert_eq!(imports[0].name, "foo");
    assert_eq!(imports[1].name, "bar");
}

fn ns_importing(packages: &[&str]) -> NamespaceCtx {
    NamespaceCtx { sources: kintsu_parser::ordmap::StrMap::new(), comments: vec![], tag: None, namespace: FromNamedSource { source: String::new(), value: kintsu_parser::defs::Spanned::call_site(kintsu_parser::toks::IdentToken::new(String::from("ns"))) },
        ctx: RefContext::new("app".to_string(), vec![]),
        error: None,
        version: None,
        imports: packages
            .iter()
            .map(|p| FromNamedSource {
                source: "schema.ks".to_string(),
                value: RefOrItemContext::Ref(RefContext::new(p.to_string(), vec!["x".to_string()])),
            })
            .collect(),
        children: vec![], resolved_versions: kintsu_parser::ordmap::StrMap::new(), resolved_errors: kintsu_parser::ordmap::StrMap::new(), resolved_aliases: kintsu_parser::ordmap::StrMap::new(),
    }
}

#[test]
fn imports_of_a_schema_are_other_packages_once_each() {
    let mut spaces = StrMap::new();
    spaces.insert("b".to_string(), ns_importing(&["lib", "app", "util"]));
    spaces.insert("a".to_string(), ns_importing(&["util", "core"]));
    let imports = extract_imports(&"app".to_string(), &spaces);
    let names: Vec<&str> = imports.iter().map(|i| i.name.as_str()).collect();
    assert_eq!(names, vec!["util", "core", "lib"]);
    assert!(imports.iter().all(|i| i.resolved_id.is_none()));
}

#[test]
fn groups_print_one_block_per_level() {
    let mut graph = SchemaDependencyGraph::new();
    graph.add_schema(schema_id("a"), vec![]);
    graph.add_schema(schema_id("b"), vec![]);
    graph.add_schema(schema_id("c"), vec![import_by_name("a")]);
    graph.build_dependencies();
    let groups = graph.topological_groups().unwrap();
    assert_eq!(pretty_print_groups(&groups), "Level 0:\n  -> a\n  -> b\nLevel 1:\n  -> c\n");
    assert_eq!(pretty_print_groups(&vec![]), "");
}

#[test]
fn levels_exist_without_a_cycle() {
    let mut graph = SchemaDependencyGraph::new();
    graph.add_schema(schema_id("a"), vec![]);
    graph.add_schema(schema_id("b"), vec![import_resolved("a", schema_id("a"))]);
    graph.build_dependencies();
    assert!(graph.has_levels());
}

#[test]
fn no_levels_with_a_cycle_behind_a_leaf() {
    let mut graph = SchemaDependencyGraph::new();
    graph.add_schema(schema_id("a"), vec![]);
    graph.add_schema(schema_id("b"), vec![import_resolved("c", schema_id("c")), import_resolved("a", schema_id("a"))]);
    graph.add_schema(schema_id("c"), vec![import_resolved("b", schema_id("b"))]);
    graph.build_dependencies();
    assert!(!graph.has_levels());
}

#[test]
fn detect_schema_cycles_refuses_schemas_in_a_circle() {
    let mut graph = SchemaDependencyGraph::new();
    graph.add_schema(schema_id("schema_a"), vec![import_resolved("schema_b", schema_id("schema_b"))]);
    graph.add_schema(schema_id("schema_b"), vec![import_resolved("schema_a", schema_id("schema_a"))]);
    graph.add_schema(schema_id("schema_c"), vec![import_resolved("schema_a", schema_id("schema_a"))]);
    graph.build_dependencies();
    match graph.detect_schema_cycles() {
        Err(SchemaGraphError::SchemaCircularDependency { mut schemas }) => {
            schemas.sort();
            assert_eq!(schemas, vec!["schema_a".to_string(), "schema_b".to_string()]);
        },
        Ok(()) => panic!("expected a circular dependency"),
    }
}

#[test]
fn detect_schema_cycles_accepts_a_chain() {
    let mut graph = SchemaDependencyGraph::new();
    graph.add_schema(schema_id("schema_a"), vec![import_resolved("schema_b", schema_id("schema_b"))]);
    graph.add_schema(schema_id("schema_b"), vec![import_resolved("schema_c", schema_id("schema_c"))]);
    graph.add_schema(schema_id("schema_c"), vec![]);
    graph.build_dependencies();
    assert!(graph.detect_schema_cycles().is_ok());
    assert!(SchemaDependencyGraph::new().detect_schema_cycles().is_ok());
}
