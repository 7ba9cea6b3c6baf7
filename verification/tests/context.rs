use lci_codegraph::chunk::Chunk;
use lci_codegraph::embed::context::{embed_input, truncate_header_and_content, ContextIndex};
use lci_codegraph::embed::EmbedConfig;
use lci_codegraph::graph::{Graph, GraphEdge, GraphNode};

fn node(id: &str, label: &str, file: &str, line: i64) -> GraphNode {
    GraphNode {
        node_id: id.to_string(),
        label: label.to_string(),
        source_file: file.to_string(),
        start_line: line,
    }
}

fn edge(source: &str, target: &str, relation: &str) -> GraphEdge {
    GraphEdge {
        source: source.to_string(),
        target: target.to_string(),
        relation: relation.to_string(),
    }
}

fn chunk(file: &str, start_line: i32, symbol_name: Option<&str>, chunk_type: &str) -> Chunk<Vec<f32>> {
    Chunk {
        file_path: file.to_string(),
        language: "rust".to_string(),
        chunk_type: chunk_type.to_string(),
        symbol_name: symbol_name.map(str::to_string),
        start_line,
        end_line: start_line,
        content: "fn body() {}".to_string(),
        embedding: None,
        embed_input: None,
    }
}

fn sample_graph() -> Graph {
    Graph {
        nodes: vec![
            node("a.rs", "a.rs", "a.rs", 1),
            node("a.rs#2:Svc", "impl Svc", "a.rs", 2),
            node("a.rs#3:caller", "caller()", "a.rs", 3),
            node("b.rs", "b.rs", "b.rs", 1),
            node("b.rs#1:target", "target()", "b.rs", 1),
        ],
        edges: vec![
            edge("a.rs", "a.rs#2:Svc", "contains"),
            edge("a.rs#2:Svc", "a.rs#3:caller", "method"),
            edge("a.rs#3:caller", "b.rs#1:target", "calls"),
        ],
    }
}

#[test]
fn maps_chunk_to_node_via_0_based_to_1_based_offset() {
    let graph = sample_graph();
    let index = ContextIndex::build(&graph);
    let c = chunk("a.rs", 2, Some("caller"), "function");
    let mapped = index.map_chunk(&c).expect("chunk should map to a node");
    assert_eq!(mapped.node_id, "a.rs#3:caller");
}

#[test]
fn within_line_comes_from_the_method_edge_container() {
    let graph = sample_graph();
    let index = ContextIndex::build(&graph);
    let config = EmbedConfig::builder().base_url("http://x").build();
    let c = chunk("a.rs", 2, Some("caller"), "function");
    let input = embed_input(&c, &index, &config);
    assert!(
        input.contains("// within: impl Svc"),
        "expected a within: line, got:\n{input}"
    );
}

#[test]
fn calls_and_called_by_render_sorted_deduped_and_capped() {
    let mut graph = sample_graph();
    graph.nodes.push(node("b.rs#2:zzz", "zzz()", "b.rs", 2));
    graph.nodes.push(node("b.rs#3:aaa", "aaa()", "b.rs", 3));
    graph.edges.push(edge("a.rs#3:caller", "b.rs#2:zzz", "calls"));
    graph.edges.push(edge("a.rs#3:caller", "b.rs#3:aaa", "calls"));
    graph.edges.push(edge("a.rs#3:caller", "b.rs#1:target", "calls"));

    let index = ContextIndex::build(&graph);
    let config = EmbedConfig::builder()
        .base_url("http://x")
        .max_context_refs(2)
        .build();
    let c = chunk("a.rs", 2, Some("caller"), "function");
    let input = embed_input(&c, &index, &config);

    let calls_line = input
        .lines()
        .find(|l| l.starts_with("// calls:"))
        .expect("expected a calls: line");
    assert_eq!(calls_line, "// calls: aaa() [b.rs], target() [b.rs] (+1 more)");

    let target_index = ContextIndex::build(&graph);
    let target_chunk = chunk("b.rs", 0, Some("target"), "function");
    let target_input = embed_input(&target_chunk, &target_index, &config);
    assert!(
        target_input.contains("// called by: caller() [a.rs]"),
        "expected a called-by line naming caller(), got:\n{target_input}"
    );
}

#[test]
fn unmapped_window_chunk_gets_a_header_with_no_graph_lines() {
    let graph = sample_graph();
    let index = ContextIndex::build(&graph);
    let config = EmbedConfig::builder().base_url("http://x").build();
    let c = chunk("a.rs", 99, None, "window");
    let input = embed_input(&c, &index, &config);
    assert!(input.starts_with("// file: a.rs\n// language: rust\n// window\n\n"));
    assert!(!input.contains("within:"));
    assert!(!input.contains("calls:"));
    assert!(!input.contains("called by:"));
}

#[test]
fn build_is_deterministic_across_two_runs_over_the_same_graph() {
    let graph = sample_graph();
    let config = EmbedConfig::builder().base_url("http://x").build();
    let c = chunk("a.rs", 2, Some("caller"), "function");

    let first = embed_input(&c, &ContextIndex::build(&graph), &config);
    let second = embed_input(&c, &ContextIndex::build(&graph), &config);
    assert_eq!(
        first, second,
        "the same chunk + graph must render byte-identical input"
    );
}

#[test]
fn truncation_never_splits_a_multi_byte_char() {
    let header = "// file: f.rs\n// language: rust\n// window\n\n";
    let content = "café 🎉 more text than fits";
    let header_chars = header.chars().count();
    for cap in [0, 1, header_chars, header_chars + 3, 1000] {
        let out = truncate_header_and_content(header, content, cap);
        assert!(
            out.chars().count() <= cap,
            "cap {cap}: output has {} chars",
            out.chars().count()
        );
    }
    let out = truncate_header_and_content(header, content, header_chars + 3);
    assert!(out.starts_with(header));
    assert_eq!(&out[header.len()..], "caf");
}

#[test]
fn header_only_is_truncated_when_it_alone_exceeds_the_cap() {
    let header = "// file: a-very-long-file-name-that-is-quite-verbose.rs\n// language: rust\n\n";
    let content = "short";
    let cap = 10;
    let out = truncate_header_and_content(header, content, cap);
    assert_eq!(out.chars().count(), cap);
    assert!(
        !out.contains("short"),
        "content must be entirely dropped once the header alone exceeds the cap"
    );
}

#[test]
fn missing_symbol_name_falls_back_to_bare_chunk_type_line() {
    let graph = Graph::default();
    let index = ContextIndex::build(&graph);
    let config = EmbedConfig::builder().base_url("http://x").build();
    let c = chunk("f.rs", 0, None, "impl");
    let input = embed_input(&c, &index, &config);
    assert!(input.contains("// impl\n"));
    assert!(!input.contains("// impl:"));
}

// ── further cases ──────────────────────────────────────────────────────────────────────────────

#[test]
fn full_header_for_a_mapped_chunk_is_exact() {
    let graph = sample_graph();
    let index = ContextIndex::build(&graph);
    let config = EmbedConfig::builder().base_url("http://x").build();
    let c = chunk("a.rs", 2, Some("caller"), "function");
    let input = embed_input(&c, &index, &config);
    assert_eq!(
        input,
        "// file: a.rs\n// language: rust\n// function: caller\n// within: impl Svc\n\
         // calls: target() [b.rs]\n\nfn body() {}"
    );
}

#[test]
fn file_node_container_edge_is_not_a_within_line() {
    // `a.rs` contains `impl Svc` directly: the parent is the chunk's own file, so no `within:`.
    let graph = sample_graph();
    let index = ContextIndex::build(&graph);
    let config = EmbedConfig::builder().base_url("http://x").build();
    let c = chunk("a.rs", 1, Some("Svc"), "impl");
    let input = embed_input(&c, &index, &config);
    assert!(!input.contains("within:"), "got:\n{input}");
}

#[test]
fn several_nodes_on_one_line_prefer_the_symbol_suffix_then_the_least_id() {
    let graph = Graph {
        nodes: vec![
            node("x.rs#5:zeta", "zeta()", "x.rs", 5),
            node("x.rs#5:alpha", "alpha()", "x.rs", 5),
        ],
        edges: vec![],
    };
    let index = ContextIndex::build(&graph);
    let by_symbol = chunk("x.rs", 4, Some("zeta"), "function");
    assert_eq!(index.map_chunk(&by_symbol).unwrap().node_id, "x.rs#5:zeta");
    let no_symbol = chunk("x.rs", 4, None, "window");
    assert_eq!(index.map_chunk(&no_symbol).unwrap().node_id, "x.rs#5:alpha");
    let unknown_symbol = chunk("x.rs", 4, Some("nope"), "function");
    assert_eq!(index.map_chunk(&unknown_symbol).unwrap().node_id, "x.rs#5:alpha");
}

#[test]
fn a_cap_of_zero_lists_only_the_count() {
    let graph = sample_graph();
    let index = ContextIndex::build(&graph);
    let config = EmbedConfig::builder().base_url("http://x").max_context_refs(0).build();
    let c = chunk("a.rs", 2, Some("caller"), "function");
    let input = embed_input(&c, &index, &config);
    assert!(input.contains("// calls:  (+1 more)\n"), "got:\n{input}");
}

#[test]
fn content_is_cut_to_max_input_chars() {
    let graph = Graph::default();
    let index = ContextIndex::build(&graph);
    let config = EmbedConfig::builder().base_url("http://x").max_input_chars(40).build();
    let c = chunk("f.rs", 0, None, "window");
    let input = embed_input(&c, &index, &config);
    assert_eq!(input, "// file: f.rs\n// language: rust\n// windo");
}

#[test]
fn truncation_keeps_everything_when_it_fits() {
    assert_eq!(truncate_header_and_content("h\n", "body", 100), "h\nbody");
    assert_eq!(truncate_header_and_content("h\n", "body", 4), "h\nbo");
    assert_eq!(truncate_header_and_content("header", "body", 3), "hea");
}
