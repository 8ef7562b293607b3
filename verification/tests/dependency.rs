use swiftlight_compiler::module::dependency::DependencyGraph;
use swiftlight_compiler::module::{ModuleId, Symbol};

fn create_module_id(name: &str) -> ModuleId {
    ModuleId::Absolute(vec![Symbol::intern(name)])
}

#[test]
fn test_simple_dependency() {
    let mut graph = DependencyGraph::new();

    let a = create_module_id("A");
    let b = create_module_id("B");

    graph.add_node(a.clone());
    graph.add_node(b.clone());
    graph.add_dependency(a.clone(), b.clone());

    assert_eq!(graph.node_count(), 2);
    assert_eq!(graph.edge_count(), 1);
    assert!(graph.get_dependencies(&a).contains(&b));
    assert!(graph.get_dependents(&b).contains(&a));
}

#[test]
fn test_cycle_detection() {
    let mut graph = DependencyGraph::new();

    let a = create_module_id("A");
    let b = create_module_id("B");
    let c = create_module_id("C");

    graph.add_node(a.clone());
    graph.add_node(b.clone());
    graph.add_node(c.clone());

    graph.add_dependency(a.clone(), b.clone());
    graph.add_dependency(b.clone(), c.clone());

    assert_eq!(graph.check_cycles().unwrap(), false);

    graph.add_dependency(c.clone(), a.clone());

    let result = graph.check_cycles();
    assert!(result.is_err());

    assert!(graph.is_in_cycle(&a));
    assert!(graph.is_in_cycle(&b));
    assert!(graph.is_in_cycle(&c));
}

#[test]
fn test_topological_sort() {
    let mut graph = DependencyGraph::new();

    let a = create_module_id("A");
    let b = create_module_id("B");
    let c = create_module_id("C");
    let d = create_module_id("D");

    graph.add_node(a.clone());
    graph.add_node(b.clone());
    graph.add_node(c.clone());
    graph.add_node(d.clone());

    graph.add_dependency(a.clone(), b.clone());
    graph.add_dependency(a.clone(), c.clone());
    graph.add_dependency(b.clone(), d.clone());
    graph.add_dependency(c.clone(), d.clone());

    let sorted = graph.topological_sort().unwrap();

    assert_eq!(sorted[0], d);
    assert_eq!(sorted[3], a);
    assert!((sorted[1] == b && sorted[2] == c) || (sorted[1] == c && sorted[2] == b));
}

#[test]
fn test_reachable_nodes() {
    let mut graph = DependencyGraph::new();

    let a = create_module_id("A");
    let b = create_module_id("B");
    let c = create_module_id("C");
    let d = create_module_id("D");
    let e = create_module_id("E");

    graph.add_node(a.clone());
    graph.add_node(b.clone());
    graph.add_node(c.clone());
    graph.add_node(d.clone());
    graph.add_node(e.clone());

    graph.add_dependency(a.clone(), b.clone());
    graph.add_dependency(a.clone(), c.clone());
    graph.add_dependency(b.clone(), d.clone());
    graph.add_dependency(c.clone(), e.clone());

    let reachable = graph.reachable_nodes(&a);

    assert_eq!(reachable.len(), 5);
    assert!(reachable.contains(&a));
    assert!(reachable.contains(&b));
    assert!(reachable.contains(&c));
    assert!(reachable.contains(&d));
    assert!(reachable.contains(&e));

    let reachable_from_b = graph.reachable_nodes(&b);
    assert_eq!(reachable_from_b.len(), 2);
    assert!(reachable_from_b.contains(&b));
    assert!(reachable_from_b.contains(&d));
    assert!(!reachable_from_b.contains(&a));
    assert!(!reachable_from_b.contains(&c));
    assert!(!reachable_from_b.contains(&e));
}

#[test]
fn test_reverse_reachable_nodes() {
    let mut graph = DependencyGraph::new();

    let a = create_module_id("A");
    let b = create_module_id("B");
    let c = create_module_id("C");
    let d = create_module_id("D");

    graph.add_node(a.clone());
    graph.add_node(b.clone());
    graph.add_node(c.clone());
    graph.add_node(d.clone());

    graph.add_dependency(a.clone(), b.clone());
    graph.add_dependency(b.clone(), d.clone());
    graph.add_dependency(c.clone(), d.clone());

    let reverse_reachable = graph.reverse_reachable_nodes(&d);

    assert_eq!(reverse_reachable.len(), 4);
    assert!(reverse_reachable.contains(&a));
    assert!(reverse_reachable.contains(&b));
    assert!(reverse_reachable.contains(&c));
    assert!(reverse_reachable.contains(&d));
}

#[test]
fn cycle_errors_carry_their_messages() {
    let mut graph = DependencyGraph::new();
    let a = create_module_id("A");
    let b = create_module_id("B");
    graph.add_dependency(a.clone(), a.clone());
    graph.add_dependency(a.clone(), b.clone());
    match graph.check_cycles() {
        Err(e) => assert_eq!(e.message(), "循環依存が検出されました: ::A".to_string()),
        Ok(_) => panic!("expected a cycle"),
    }
    match graph.topological_sort() {
        Err(e) => assert_eq!(e.message(), "循環依存が存在するためトポロジカルソートができません".to_string()),
        Ok(_) => panic!("expected a cycle"),
    }
}

#[test]
fn two_module_cycle_is_written_with_arrows() {
    let mut graph = DependencyGraph::new();
    let a = create_module_id("A");
    let b = create_module_id("B");
    graph.add_dependency(a.clone(), b.clone());
    graph.add_dependency(b.clone(), a.clone());
    match graph.check_cycles() {
        Err(e) => {
            let m = e.message();
            assert!(m == "循環依存が検出されました: ::A -> ::B" || m == "循環依存が検出されました: ::B -> ::A");
        }
        Ok(_) => panic!("expected a cycle"),
    }
}
