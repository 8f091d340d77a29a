use agent_kit::callgraph::{parse_graph, EdgeRec, GraphRec, NodeRec, PackageRec, MAX_STR};

fn node(id: u64, name: &str, file: &str) -> NodeRec {
    NodeRec {
        id: Some(id),
        package: None,
        name: Some(name.to_string()),
        exported: None,
        file: Some(file.to_string()),
        line: Some(1),
    }
}

fn edge(a: u64, b: u64) -> EdgeRec {
    EdgeRec { caller_id: Some(a), callee_id: Some(b) }
}

fn changed() -> Vec<String> {
    vec!["pkg/t.go".to_string()]
}

#[test]
fn positive_parses_nodes_edges_and_marks_changed() {
    let g = GraphRec {
        truncated: Some(false),
        nodes: Some(vec![
            NodeRec { id: Some(0), package: Some(String::new()), name: Some("Caller".to_string()), exported: Some(true), file: Some("main.go".to_string()), line: Some(2) },
            NodeRec { id: Some(1), package: Some("pkg".to_string()), name: Some("Target".to_string()), exported: Some(true), file: Some("pkg/t.go".to_string()), line: Some(2) },
        ]),
        edges: Some(vec![edge(0, 1)]),
        packages: Some(vec![PackageRec { package: Some("pkg".to_string()), files: Some(1), exported_fns: Some(1), types: Some(1) }]),
    };
    let cg = parse_graph(&g, &[true, true], &changed()).unwrap();
    assert_eq!(cg.nodes.len(), 2);
    assert_eq!(cg.edges.len(), 1);
    assert_eq!(cg.edges[0].caller_id, 0);
    assert_eq!(cg.edges[0].callee_id, 1);
    assert_eq!(cg.changed_fns, vec![1], "Target (pkg/t.go) is the changed fn");
    assert_eq!(cg.packages.len(), 1);
    assert_eq!(cg.packages[0].types, 1);
    assert!(!cg.truncated);
}

#[test]
fn adversarial_escaping_node_path_dropped_with_its_edges() {
    let g = GraphRec {
        truncated: None,
        nodes: Some(vec![node(0, "Ok", "a.go"), node(1, "Evil", "../../etc/passwd")]),
        edges: Some(vec![edge(0, 1), edge(0, 0)]),
        packages: None,
    };
    let cg = parse_graph(&g, &[true, false], &changed()).unwrap();
    assert_eq!(cg.nodes.len(), 1, "escaping node dropped");
    assert_eq!(cg.nodes[0].name, "Ok");
    assert_eq!(cg.edges.len(), 1);
    assert_eq!(cg.edges[0].callee_id, 0);
}

#[test]
fn adversarial_hostile_strings_bounded_and_garbage_rejected() {
    let big = "x".repeat(100_000);
    let g = GraphRec {
        truncated: Some(true),
        nodes: Some(vec![NodeRec { id: Some(0), package: Some(big.clone()), name: Some(big), exported: None, file: Some("a.go".to_string()), line: Some(1) }]),
        edges: Some(vec![]),
        packages: None,
    };
    let cg = parse_graph(&g, &[true], &changed()).unwrap();
    assert!(cg.nodes[0].name.chars().count() <= MAX_STR + 20);
    assert!(cg.nodes[0].package.chars().count() <= MAX_STR + 20);
    assert!(cg.truncated);
    // A report whose node carries no id is garbage: rejected whole.
    let garbage = GraphRec {
        truncated: None,
        nodes: Some(vec![NodeRec { id: None, package: None, name: None, exported: None, file: None, line: None }]),
        edges: None,
        packages: None,
    };
    assert!(parse_graph(&garbage, &[true], &changed()).is_none());
}

#[test]
fn corner_edges_referencing_unknown_nodes_are_dropped() {
    let g = GraphRec {
        truncated: None,
        nodes: Some(vec![node(5, "A", "a.go")]),
        edges: Some(vec![edge(5, 99), edge(42, 5), EdgeRec { caller_id: None, callee_id: Some(5) }]),
        packages: None,
    };
    let cg = parse_graph(&g, &[true], &changed()).unwrap();
    assert_eq!(cg.nodes.len(), 1);
    assert!(cg.edges.is_empty(), "every edge references a missing node");
}

#[test]
fn a_node_without_id_rejects_the_report() {
    let g = GraphRec {
        truncated: None,
        nodes: Some(vec![node(1, "A", "a.go"), NodeRec { id: None, package: None, name: None, exported: None, file: Some("b.go".to_string()), line: None }]),
        edges: None,
        packages: None,
    };
    assert!(parse_graph(&g, &[true, true], &changed()).is_none());
}

#[test]
fn nodes_without_a_file_are_dropped() {
    let g = GraphRec {
        truncated: None,
        nodes: Some(vec![NodeRec { id: Some(3), package: None, name: None, exported: None, file: None, line: None }]),
        edges: Some(vec![edge(3, 3)]),
        packages: None,
    };
    let cg = parse_graph(&g, &[true], &changed()).unwrap();
    assert!(cg.nodes.is_empty());
    assert!(cg.edges.is_empty());
}
