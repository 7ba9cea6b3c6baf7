use std::collections::HashMap;

use lci_codegraph::input::IndexOptions;
use lci_codegraph::tuning::{env_usize, IndexTuning};
use lci_codegraph::walk::{forward_slashes, globs_from_value, parse_globs, WalkOptions};

fn lookup(vars: &[(&str, &str)]) -> impl Fn(&str) -> Option<String> {
    let map: HashMap<String, String> = vars
        .iter()
        .map(|(k, v)| (k.to_string(), v.to_string()))
        .collect();
    move |key: &str| map.get(key).cloned()
}

#[test]
fn defaults_match_the_historical_hardcoded_values() {
    let tuning = IndexTuning::default();
    assert_eq!(tuning.embed_batch_size, 32);
    assert_eq!(tuning.max_chunk_lines, 150);
    assert_eq!(tuning.window_size, 100);
    assert_eq!(tuning.window_step, 50);
}

#[test]
fn index_options_from_walk_options_carries_only_the_three_shared_fields() {
    let a = WalkOptions::builder()
        .respect_gitignore(true)
        .extra_ignore_globs(vec!["a/".to_string()])
        .build_graph(true)
        .extract_pdfs(false)
        .build();
    let b = WalkOptions::builder()
        .respect_gitignore(false)
        .extra_ignore_globs(vec!["totally-different/".to_string(), "b/".to_string()])
        .build_graph(true)
        .extract_pdfs(false)
        .build();

    let ia = IndexOptions::from(&a);
    let ib = IndexOptions::from(&b);

    assert_eq!(ia.build_graph, ib.build_graph);
    assert_eq!(ia.extract_pdfs, ib.extract_pdfs);
    assert_eq!(ia.tuning.embed_batch_size, ib.tuning.embed_batch_size);
    assert_eq!(ia.tuning.max_chunk_lines, ib.tuning.max_chunk_lines);
    assert_eq!(ia.tuning.window_size, ib.tuning.window_size);
    assert_eq!(ia.tuning.window_step, ib.tuning.window_step);
}

// ── further cases ──────────────────────────────────────────────────────────────────────────────

#[test]
fn env_usize_parses_clamps_to_one_and_falls_back() {
    assert_eq!(env_usize(&None, 7), 7, "unset gives the default");
    assert_eq!(env_usize(&Some("12".to_string()), 7), 12, "parses a value");
    assert_eq!(env_usize(&Some(" 12 ".to_string()), 7), 12, "trims it first");
    assert_eq!(env_usize(&Some("0".to_string()), 7), 1, "zero clamps to 1");
    assert_eq!(env_usize(&Some("not-a-number".to_string()), 7), 7, "unparseable gives the default");
}

#[test]
fn env_usize_overflowing_value_falls_back_to_default() {
    let huge = Some("999999999999999999999999999999999999".to_string());
    assert_eq!(env_usize(&huge, 9), 9);
}

#[test]
fn from_lookup_reads_all_four_knobs() {
    let tuning = IndexTuning::from_lookup(lookup(&[
        ("LCI_CODEGRAPH_EMBED_BATCH_SIZE", "16"),
        ("LCI_CODEGRAPH_MAX_CHUNK_LINES", "75"),
        ("LCI_CODEGRAPH_WINDOW_SIZE", "40"),
        ("LCI_CODEGRAPH_WINDOW_STEP", "20"),
    ]));
    assert_eq!(tuning.embed_batch_size, 16);
    assert_eq!(tuning.max_chunk_lines, 75);
    assert_eq!(tuning.window_size, 40);
    assert_eq!(tuning.window_step, 20);
}

#[test]
fn from_lookup_falls_back_to_defaults_when_unset() {
    let tuning = IndexTuning::from_lookup(lookup(&[]));
    let default = IndexTuning::default();
    assert_eq!(tuning.embed_batch_size, default.embed_batch_size);
    assert_eq!(tuning.max_chunk_lines, default.max_chunk_lines);
    assert_eq!(tuning.window_size, default.window_size);
    assert_eq!(tuning.window_step, default.window_step);
}

#[test]
fn walk_options_defaults() {
    let o = WalkOptions::builder().build();
    assert!(o.respect_gitignore);
    assert!(!o.build_graph);
    assert!(o.extract_pdfs);
    assert!(o.extra_ignore_globs.is_empty());
    assert!(o.embed.is_none());
    assert_eq!(o.tuning.embed_batch_size, 32);
}

#[test]
fn globs_split_on_newlines_and_commas_trimmed_and_non_empty() {
    assert_eq!(
        parse_globs(" a/ ,b/\n\n  c/**  ,, "),
        vec!["a/".to_string(), "b/".to_string(), "c/**".to_string()]
    );
    assert!(parse_globs("").is_empty());
    assert!(parse_globs(" , \n ").is_empty());
    assert_eq!(parse_globs("only"), vec!["only".to_string()]);
    assert!(globs_from_value(&None).is_empty());
    assert_eq!(globs_from_value(&Some("x,y".to_string())), vec!["x".to_string(), "y".to_string()]);
}

#[test]
fn backslashes_become_forward_slashes() {
    assert_eq!(forward_slashes("src\\lib\\a.rs"), "src/lib/a.rs");
    assert_eq!(forward_slashes("plain/path.rs"), "plain/path.rs");
    assert_eq!(forward_slashes("\\"), "/");
    assert_eq!(forward_slashes(""), "");
}
