use lci_codegraph::graph::resolve::{pick, resolve, Pick};
use lci_codegraph::graph::{CallSite, Callable, FileSymbols, GraphEdge, GraphNode};

fn callable(name: &str, id: &str, scope: Option<&str>) -> Callable {
    Callable {
        name: name.to_string(),
        node_id: id.to_string(),
        scope: scope.map(str::to_string),
    }
}

fn file_node(id: &str) -> GraphNode {
    GraphNode {
        node_id: id.to_string(),
        label: id.to_string(),
        source_file: id.to_string(),
        start_line: 1,
    }
}

#[test]
fn pick_with_no_candidates_returns_none() {
    assert!(matches!(pick(None, None), Pick::Unmatched));
}

#[test]
fn pick_single_candidate_with_no_qualifier_resolves() {
    let c = callable("f", "id1", None);
    let cands = [&c];
    assert!(matches!(pick(Some(&cands), None), Pick::One(id) if id == "id1"));
}

#[test]
fn pick_single_candidate_with_matching_type_qualifier_resolves() {
    let c = callable("new", "a.rs#1:new", Some("A"));
    let cands = [&c];
    assert!(matches!(pick(Some(&cands), Some("A")), Pick::One(id) if id == "a.rs#1:new"));
}

#[test]
fn pick_single_candidate_with_mismatched_type_qualifier_is_none() {
    let c = callable("new", "a.rs#1:new", Some("A"));
    let cands = [&c];
    assert!(matches!(pick(Some(&cands), Some("B")), Pick::Unmatched));
}

#[test]
fn pick_single_candidate_with_module_qualifier_and_no_scope_still_resolves() {
    let c = callable("add", "math.rs#1:add", None);
    let cands = [&c];
    assert!(matches!(pick(Some(&cands), Some("math")), Pick::One(id) if id == "math.rs#1:add"));
}

#[test]
fn pick_multiple_candidates_with_no_qualifier_is_ambiguous() {
    let a = callable("new", "a", Some("A"));
    let b = callable("new", "b", Some("B"));
    let cands = [&a, &b];
    assert!(matches!(pick(Some(&cands), None), Pick::Ambiguous));
}

#[test]
fn pick_multiple_candidates_qualifier_singles_out_exactly_one() {
    let a = callable("new", "a", Some("A"));
    let b = callable("new", "b", Some("B"));
    let cands = [&a, &b];
    assert!(matches!(pick(Some(&cands), Some("A")), Pick::One(id) if id == "a"));
}

#[test]
fn pick_multiple_candidates_qualifier_matching_none_is_ambiguous() {
    let a = callable("new", "a", Some("A"));
    let b = callable("new", "b", Some("B"));
    let cands = [&a, &b];
    assert!(matches!(pick(Some(&cands), Some("C")), Pick::Ambiguous));
}

#[test]
fn pick_multiple_candidates_qualifier_matching_more_than_one_is_still_ambiguous() {
    let a1 = callable("new", "a1", Some("A"));
    let a2 = callable("new", "a2", Some("A"));
    let cands = [&a1, &a2];
    assert!(matches!(pick(Some(&cands), Some("A")), Pick::Ambiguous));
}

#[test]
fn resolve_dedups_identical_call_sites_into_a_single_edge() {
    let mut fs = FileSymbols::default();
    fs.nodes.push(file_node("f.rs"));
    fs.callables.push(callable("helper", "f.rs#1:helper", None));
    for _ in 0..2 {
        fs.calls.push(CallSite {
            caller: "f.rs#2:caller".to_string(),
            name: "helper".to_string(),
            qualifier: None,
        });
    }
    let g = resolve(vec![fs]);
    let calls: Vec<_> = g.edges.iter().filter(|e| e.relation == "calls").collect();
    assert_eq!(
        calls.len(),
        1,
        "duplicate identical call sites must dedup to one edge; got {calls:?}"
    );
}

#[test]
fn resolve_sorts_and_dedups_nodes_for_deterministic_output() {
    let n_b = file_node("b.rs");
    let n_a = file_node("a.rs");
    let mut fs = FileSymbols::default();
    fs.nodes.push(n_b.clone());
    fs.nodes.push(n_a.clone());
    fs.nodes.push(n_b.clone());
    let g = resolve(vec![fs]);
    assert_eq!(
        g.nodes,
        vec![n_a, n_b],
        "nodes must be sorted by node_id and deduped regardless of input order"
    );
}

#[test]
fn resolve_unresolvable_callee_produces_no_edge() {
    let mut fs = FileSymbols::default();
    fs.nodes.push(file_node("f.rs"));
    fs.calls.push(CallSite {
        caller: "f.rs#1:caller".to_string(),
        name: "nowhere_defined".to_string(),
        qualifier: None,
    });
    let g = resolve(vec![fs]);
    assert!(
        !g.edges.iter().any(|e| e.relation == "calls"),
        "an unresolvable callee must not produce a calls edge; got {:?}",
        g.edges
    );
}

// ── further cases ──────────────────────────────────────────────────────────────────────────────

#[test]
fn pick_with_empty_candidate_slice_returns_none() {
    let empty: Vec<&Callable> = Vec::new();
    assert!(matches!(pick(Some(&empty), None), Pick::Unmatched));
}

fn two_files() -> Vec<FileSymbols> {
    let mut a = FileSymbols::default();
    a.nodes.push(file_node("a.rs"));
    a.callables.push(callable("run", "a.rs#1:run", None));
    a.callables.push(callable("helper", "a.rs#5:helper", None));
    a.calls.push(CallSite {
        caller: "a.rs#1:run".to_string(),
        name: "helper".to_string(),
        qualifier: None,
    });
    a.calls.push(CallSite {
        caller: "a.rs#1:run".to_string(),
        name: "target".to_string(),
        qualifier: None,
    });
    a.contains.push(GraphEdge {
        source: "a.rs".to_string(),
        target: "a.rs#1:run".to_string(),
        relation: "contains".to_string(),
    });
    let mut b = FileSymbols::default();
    b.nodes.push(file_node("b.rs"));
    b.callables.push(callable("helper", "b.rs#1:helper", None));
    b.callables.push(callable("target", "b.rs#2:target", None));
    vec![a, b]
}

#[test]
fn resolve_prefers_a_local_definition_and_falls_back_to_the_global_table() {
    let g = resolve(two_files());
    let calls: Vec<(String, String)> = g
        .edges
        .iter()
        .filter(|e| e.relation == "calls")
        .map(|e| (e.source.clone(), e.target.clone()))
        .collect();
    assert_eq!(
        calls,
        vec![
            ("a.rs#1:run".to_string(), "a.rs#5:helper".to_string()),
            ("a.rs#1:run".to_string(), "b.rs#2:target".to_string()),
        ]
    );
}

#[test]
fn resolve_does_not_depend_on_the_order_of_the_files() {
    let forward = resolve(two_files());
    let mut files = two_files();
    files.reverse();
    let backward = resolve(files);
    assert_eq!(forward, backward);
}

#[test]
fn resolve_keeps_contains_edges_sorted_with_the_calls() {
    let g = resolve(two_files());
    let mut sorted = g.edges.clone();
    sorted.sort();
    sorted.dedup();
    assert_eq!(g.edges, sorted);
    assert!(g.edges.iter().any(|e| e.relation == "contains"));
}
