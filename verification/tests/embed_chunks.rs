use std::cell::RefCell;

use lci_codegraph::chunk::Chunk;
use lci_codegraph::embed::client::BatchReply;
use lci_codegraph::embed::{embed_chunks, embed_output, EmbedConfig, EmbedError};
use lci_codegraph::graph::{Graph, GraphNode};
use lci_codegraph::input::{IndexOutput, IndexStats};
use lci_codegraph::walk::{embed_walk_output, WalkOptions};

fn chunk(file: &str, start_line: i32, content: &str) -> Chunk<Vec<f32>> {
    Chunk {
        file_path: file.to_string(),
        language: "rust".to_string(),
        chunk_type: "window".to_string(),
        symbol_name: None,
        start_line,
        end_line: start_line,
        content: content.to_string(),
        embedding: None,
        embed_input: None,
    }
}

fn config() -> EmbedConfig {
    EmbedConfig::builder().base_url("http://127.0.0.1:1").build()
}

/// A stand-in endpoint: one vector per input, `[batch number, position]`, listed in reverse order
/// so alignment has work to do; every call is recorded.
fn reversing_endpoint(
    seen: &RefCell<Vec<Vec<String>>>,
) -> impl Fn(&Vec<String>) -> Result<BatchReply<Vec<f32>>, String> + '_ {
    move |inputs: &Vec<String>| {
        let batch = seen.borrow().len() as f32;
        seen.borrow_mut().push(inputs.clone());
        let mut data: Vec<(usize, Vec<f32>)> =
            (0..inputs.len()).map(|i| (i, vec![batch, i as f32])).collect();
        data.reverse();
        Ok(BatchReply { data, retries: 1 })
    }
}

#[test]
fn embed_chunks_on_empty_input_makes_no_request_and_returns_default_stats() {
    let graph = Graph::default();
    let mut chunks: Vec<Chunk<Vec<f32>>> = Vec::new();
    let calls = RefCell::new(Vec::new());
    let stats = embed_chunks(&mut chunks, &graph, &config(), 32, reversing_endpoint(&calls))
        .unwrap_or_else(|_| panic!("empty input cannot fail"));
    assert_eq!(stats.chunks_embedded, 0);
    assert_eq!(stats.batches, 0);
    assert_eq!(stats.retries, 0);
    assert!(calls.borrow().is_empty());
}

#[test]
fn embed_chunks_batches_consecutive_chunks_and_aligns_vectors() {
    let graph = Graph::default();
    let mut chunks: Vec<Chunk<Vec<f32>>> =
        (0..5).map(|i| chunk("f.rs", i, &format!("c{i}"))).collect();
    let calls = RefCell::new(Vec::new());
    let stats = embed_chunks(&mut chunks, &graph, &config(), 2, reversing_endpoint(&calls))
        .unwrap_or_else(|_| panic!("stub endpoint never fails"));
    assert_eq!(stats.chunks_embedded, 5);
    assert_eq!(stats.batches, 3);
    assert_eq!(stats.retries, 3);
    let sizes: Vec<usize> = calls.borrow().iter().map(Vec::len).collect();
    assert_eq!(sizes, vec![2, 2, 1]);
    for (i, c) in chunks.iter().enumerate() {
        assert_eq!(c.embedding, Some(vec![(i / 2) as f32, (i % 2) as f32]));
        let text = c.embed_input.as_deref().unwrap();
        assert_eq!(text, format!("// file: f.rs\n// language: rust\n// window\n\nc{i}"));
        assert_eq!(calls.borrow()[i / 2][i % 2], text);
    }
}

#[test]
fn zero_batch_size_means_one_chunk_per_request() {
    let graph = Graph::default();
    let mut chunks: Vec<Chunk<Vec<f32>>> = (0..3).map(|i| chunk("f.rs", i, "x")).collect();
    let calls = RefCell::new(Vec::new());
    let stats = embed_chunks(&mut chunks, &graph, &config(), 0, reversing_endpoint(&calls))
        .unwrap_or_else(|_| panic!("stub endpoint never fails"));
    assert_eq!(stats.batches, 3);
}

#[test]
fn a_failed_request_is_returned_and_earlier_batches_keep_their_vectors() {
    let graph = Graph::default();
    let mut chunks: Vec<Chunk<Vec<f32>>> = (0..4).map(|i| chunk("f.rs", i, "x")).collect();
    let n = RefCell::new(0);
    let endpoint = |inputs: &Vec<String>| {
        *n.borrow_mut() += 1;
        if *n.borrow() == 2 {
            return Err("boom".to_string());
        }
        Ok(BatchReply { data: (0..inputs.len()).map(|i| (i, vec![1.0f32])).collect(), retries: 0 })
    };
    match embed_chunks(&mut chunks, &graph, &config(), 2, endpoint) {
        Err(EmbedError::Request(e)) => assert_eq!(e, "boom"),
        _ => panic!("the second request fails"),
    }
    assert!(chunks[0].embedding.is_some() && chunks[1].embedding.is_some());
    assert!(chunks[2].embedding.is_none() && chunks[3].embedding.is_none());
}

#[test]
fn a_reply_with_duplicated_indices_is_refused() {
    let graph = Graph::default();
    let mut chunks: Vec<Chunk<Vec<f32>>> = (0..2).map(|i| chunk("f.rs", i, "x")).collect();
    let endpoint = |_: &Vec<String>| -> Result<BatchReply<Vec<f32>>, String> {
        Ok(BatchReply { data: vec![(0, vec![1.0]), (0, vec![9.0])], retries: 0 })
    };
    match embed_chunks(&mut chunks, &graph, &config(), 8, endpoint) {
        Err(EmbedError::Align(e)) => assert!(e.message().contains("permutation")),
        _ => panic!("duplicated indices must be refused"),
    }
    assert!(chunks.iter().all(|c| c.embedding.is_none()));
}

#[test]
fn embed_output_adds_its_counters_to_the_output_stats() {
    let mut output = IndexOutput {
        chunks: (0..3).map(|i| chunk("f.rs", i, "x")).collect(),
        graph: Graph {
            nodes: vec![GraphNode {
                node_id: "f.rs".to_string(),
                label: "f.rs".to_string(),
                source_file: "f.rs".to_string(),
                start_line: 1,
            }],
            edges: vec![],
        },
        stats: IndexStats { chunks_embedded: 10, embed_batches: 1, ..IndexStats::default() },
    };
    let calls = RefCell::new(Vec::new());
    let stats = embed_output(&mut output, &config(), 2, reversing_endpoint(&calls))
        .unwrap_or_else(|_| panic!("stub endpoint never fails"));
    assert_eq!(stats.batches, 2);
    assert_eq!(output.stats.chunks_embedded, 13);
    assert_eq!(output.stats.embed_batches, 3);
    assert!(output.chunks.iter().all(|c| c.embedding.is_some()));
}

#[test]
fn a_walk_without_an_embedding_configuration_sends_nothing() {
    let mut output: IndexOutput<Vec<f32>> = IndexOutput {
        chunks: vec![chunk("f.rs", 0, "x")],
        graph: Graph::default(),
        stats: IndexStats::default(),
    };
    let calls = RefCell::new(Vec::new());
    let options = WalkOptions::builder().build();
    let r = embed_walk_output(&mut output, &options, reversing_endpoint(&calls));
    assert!(matches!(r, Ok(None)));
    assert!(calls.borrow().is_empty());
    assert!(output.chunks[0].embedding.is_none() && output.chunks[0].embed_input.is_none());

    let options = WalkOptions::builder().embed(config()).build();
    let r = embed_walk_output(&mut output, &options, reversing_endpoint(&calls));
    assert!(matches!(r, Ok(Some(s)) if s.chunks_embedded == 1));
    assert_eq!(calls.borrow().len(), 1);
}
