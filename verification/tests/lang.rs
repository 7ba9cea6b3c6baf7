use lci_codegraph::lang::cstack::Cstack;
use lci_codegraph::lang::java::Java;
use lci_codegraph::lang::javascript::JavaScript;
use lci_codegraph::lang::jinja2::Jinja2;
use lci_codegraph::lang::json::Json;
use lci_codegraph::lang::postgres::Postgres;
use lci_codegraph::lang::rust::Rust;
use lci_codegraph::lang::scala::Scala;
use lci_codegraph::lang::swift::Swift;
use lci_codegraph::lang::{by_id, parse, GraphStrategy, LanguageSupport, Registered};

#[test]
fn cstack_id_and_extensions() {
    assert_eq!(Cstack.id(), "cstack");
    assert_eq!(Cstack.extensions(), &["cstack"]);
}

#[test]
fn cstack_graph_strategy_is_a_tags_query_not_rust_native() {
    assert!(matches!(Cstack.graph_strategy(), Some(GraphStrategy::Tags(_))));
}

#[test]
fn java_id_and_extensions() {
    assert_eq!(Java.id(), "java");
    assert_eq!(Java.extensions(), &["java"]);
}

#[test]
fn java_graph_strategy_is_a_tags_query_not_rust_native() {
    assert!(matches!(Java.graph_strategy(), Some(GraphStrategy::Tags(_))));
}

#[test]
fn jinja2_id_and_extensions() {
    assert_eq!(Jinja2.id(), "jinja2");
    assert_eq!(Jinja2.extensions(), &["jinja", "jinja2", "j2"]);
}

#[test]
fn jinja2_has_no_graph_strategy() {
    assert!(Jinja2.graph_strategy().is_none());
}

#[test]
fn json_id_and_extensions() {
    assert_eq!(Json.id(), "json");
    assert_eq!(Json.extensions(), &["json"]);
}

#[test]
fn json_has_no_graph_strategy() {
    assert!(Json.graph_strategy().is_none());
}

#[test]
fn postgres_id_and_extensions() {
    assert_eq!(Postgres.id(), "postgres");
    assert_eq!(Postgres.extensions(), &["sql", "pgsql"]);
}

#[test]
fn postgres_has_no_graph_strategy() {
    assert!(Postgres.graph_strategy().is_none());
}

#[test]
fn rust_id_and_extensions() {
    assert_eq!(Rust.id(), "rust");
    assert_eq!(Rust.extensions(), &["rs"]);
}

#[test]
fn graph_strategy_is_rust_native_not_tags() {
    assert!(matches!(Rust.graph_strategy(), Some(GraphStrategy::RustNative)));
}

#[test]
fn scala_id_and_extensions() {
    assert_eq!(Scala.id(), "scala");
    assert_eq!(Scala.extensions(), &["scala", "sc"]);
}

#[test]
fn scala_graph_strategy_is_a_tags_query_not_rust_native() {
    assert!(matches!(Scala.graph_strategy(), Some(GraphStrategy::Tags(_))));
}

#[test]
fn swift_id_and_extensions() {
    assert_eq!(Swift.id(), "swift");
    assert_eq!(Swift.extensions(), &["swift"]);
}

#[test]
fn swift_graph_strategy_is_a_tags_query_not_rust_native() {
    assert!(matches!(Swift.graph_strategy(), Some(GraphStrategy::Tags(_))));
}

#[test]
fn id_and_extensions_cover_js_jsx_mjs_cjs() {
    assert_eq!(JavaScript.id(), "javascript");
    assert_eq!(JavaScript.extensions(), &["js", "jsx", "mjs", "cjs"]);
}

#[test]
fn javascript_graph_strategy_is_a_tags_query_not_rust_native() {
    assert!(matches!(JavaScript.graph_strategy(), Some(GraphStrategy::Tags(_))));
}

// ── further cases ──────────────────────────────────────────────────────────────────────────────

#[test]
fn by_id_finds_every_registered_language_and_nothing_else() {
    for id in ["rust", "java", "javascript", "jinja2", "json", "postgres", "scala", "swift", "cstack"] {
        let lang = by_id(id).unwrap_or_else(|| panic!("{id} is registered"));
        assert_eq!(lang.id(), id);
    }
    assert!(by_id("python").is_none());
    assert!(by_id("Rust").is_none());
    assert!(by_id("").is_none());
}

#[test]
fn registered_languages_delegate_to_their_support() {
    assert_eq!(Registered::Postgres.extensions(), &["sql", "pgsql"]);
    assert!(Registered::Json.graph_strategy().is_none());
    assert!(matches!(Registered::Rust.graph_strategy(), Some(GraphStrategy::RustNative)));
    assert!(matches!(Registered::Swift.graph_strategy(), Some(GraphStrategy::Tags(_))));
}

#[test]
fn every_grammar_parses_a_small_source_without_errors() {
    let cases = [
        ("rust", "fn a() {}\n"),
        ("java", "class C { void m() {} }\n"),
        ("javascript", "function f() { return 1; }\n"),
        ("scala", "object Hello { def a(): Unit = {} }\n"),
        ("swift", "func f() {}\n"),
        ("json", "{\"a\": [1, 2]}\n"),
        ("postgres", "SELECT 1;\n"),
        ("jinja2", "{{ name }}\n"),
        ("cstack", "model User {\n  id Int @id\n}\n"),
    ];
    for (lang, code) in cases {
        let tree = parse(code, lang).unwrap_or_else(|| panic!("{lang} parses"));
        assert!(!tree.tree().root_node().has_error(), "{lang} parse has errors");
    }
    assert!(parse("x", "cobol").is_none());
}

#[test]
fn every_bundled_tags_query_compiles_against_its_grammar() {
    for lang in [Registered::Java, Registered::JavaScript, Registered::Scala, Registered::Swift, Registered::Cstack] {
        match lang.graph_strategy() {
            Some(GraphStrategy::Tags(q)) => {
                assert!(tree_sitter::Query::new(&q.language, &q.source).is_ok(), "{:?} query compiles", lang);
            }
            _ => panic!("{lang:?} has a tags query"),
        }
    }
}

fn parses_without_errors(language: tree_sitter::Language, code: &str) {
    let mut parser = tree_sitter::Parser::new();
    parser.set_language(&language).unwrap();
    let tree = parser.parse(code, None).unwrap();
    assert!(!tree.root_node().has_error());
}

const CSTACK_SCHEMA: &str = "mixin Timestamps {\n  createdAt DateTime\n}\n\n\
                             enum Role {\n  Admin\n}\n\n\
                             model User {\n  id Int @id\n  role Role\n  @use(Timestamps)\n}\n\n\
                             procedure ping(): Int\n";

#[test]
fn ts_language_parses_cstack_source_without_errors() {
    parses_without_errors(Cstack.ts_language(), CSTACK_SCHEMA);
}

#[test]
fn ts_language_parses_java_source_without_errors() {
    parses_without_errors(Java.ts_language(), "class C { void m() {} }\n");
}

#[test]
fn ts_language_parses_jsx_without_errors() {
    parses_without_errors(JavaScript.ts_language(), "function App() { return <div/>; }\n");
}

#[test]
fn ts_language_parses_jinja2_source_without_errors() {
    parses_without_errors(Jinja2.ts_language(), "{{ a }}\n");
}

#[test]
fn ts_language_parses_json_source_without_errors() {
    parses_without_errors(Json.ts_language(), "{\"a\": 1}\n");
}

#[test]
fn ts_language_parses_postgres_source_without_errors() {
    parses_without_errors(Postgres.ts_language(), "SELECT 1;\n");
}

#[test]
fn ts_language_parses_rust_source_without_errors() {
    parses_without_errors(Rust.ts_language(), "fn a() {}\n");
}

#[test]
fn ts_language_parses_scala_source_without_errors() {
    parses_without_errors(Scala.ts_language(), "object Hello { def a(): Unit = {} }\n");
}

#[test]
fn ts_language_parses_swift_source_without_errors() {
    parses_without_errors(Swift.ts_language(), "func a() {}\n");
}

#[test]
fn tags_query_classifies_every_declaration_kind() {
    let language = Cstack.ts_language();
    let query = tree_sitter::Query::new(&language, tree_sitter_cstack::TAGS_QUERY).unwrap();
    let mut parser = tree_sitter::Parser::new();
    parser.set_language(&language).unwrap();
    let tree = parser.parse(CSTACK_SCHEMA, None).unwrap();
    let mut cursor = tree_sitter::QueryCursor::new();
    let mut seen = std::collections::BTreeSet::new();
    let mut matches = cursor.matches(&query, tree.root_node(), CSTACK_SCHEMA.as_bytes());
    while let Some(m) = tree_sitter::StreamingIterator::next(&mut matches) {
        for capture in m.captures {
            seen.insert(query.capture_names()[capture.index as usize]);
        }
    }
    for expected in ["definition.class", "definition.interface", "definition.enum", "definition.function"] {
        assert!(seen.contains(expected), "missing {expected}: {seen:?}");
    }
}

#[test]
fn the_grammar_emits_no_call_references_because_cstack_has_no_call_sites() {
    let language = Cstack.ts_language();
    let query = tree_sitter::Query::new(&language, tree_sitter_cstack::TAGS_QUERY).unwrap();
    assert!(
        !query.capture_names().contains(&"reference.call"),
        "`.cstack` is declarative; a call reference here would be a grammar bug",
    );
}

#[test]
fn tag_only_languages_never_claim_a_graph_extractor() {
    for lang_id in ["kotlin", "groovy", "go", "c", "cpp", "text"] {
        let has_graph = by_id(lang_id).is_some_and(|l| l.graph_strategy().is_some());
        assert!(!has_graph, "{lang_id} is tag-only but claims a graph extractor");
    }
}

#[test]
fn parse_and_bundled_tags_fit_extract() {
    let code = "class C { void m() { helper(); } void helper() {} }\n";
    let tree = parse(code, "java").unwrap();
    let t = lci_codegraph::tags::extract("java", &tree, code).unwrap();
    assert!(t.defs.values().all(|d| ["function", "method", "class", "interface", "enum", "type"].contains(&d.kind)));
    assert!(t.calls.values().any(|n| n == "helper"));
    assert!(lci_codegraph::tags::extract("rust", &parse("fn a() {}\n", "rust").unwrap(), "fn a() {}\n").is_none());
}

#[test]
fn a_tree_of_another_source_does_not_panic() {
    let long = "class C { void m() { helper(); } void helper() {} }\n";
    let tree = parse(long, "javascript").unwrap();
    let _ = lci_codegraph::tags::extract("javascript", &tree, "x");
}

#[test]
fn bundled_tags_texts_are_the_grammar_crates_queries() {
    assert_eq!(lci_codegraph::lang::java::BUNDLED_TAGS_QUERY, tree_sitter_java::TAGS_QUERY);
    assert_eq!(lci_codegraph::lang::javascript::BUNDLED_TAGS_QUERY, tree_sitter_javascript::TAGS_QUERY);
    assert_eq!(lci_codegraph::lang::swift::BUNDLED_TAGS_QUERY, tree_sitter_swift::TAGS_QUERY);
    assert_eq!(lci_codegraph::lang::cstack::BUNDLED_TAGS_QUERY, tree_sitter_cstack::TAGS_QUERY);
}

#[test]
fn extract_with_runs_the_compiled_query_over_the_tree() {
    let code = "function helper() {}\nfunction main() { helper(); }\n";
    let tree = parse(code, "javascript").unwrap();
    let query = lci_codegraph::lang::compile_tags(Registered::JavaScript, lci_codegraph::lang::javascript::BUNDLED_TAGS_QUERY).unwrap();
    let t = lci_codegraph::tags::extract_with(&query, &tree, code);
    assert!(t.defs.values().any(|d| d.kind == "function" && d.name.as_deref() == Some("helper")));
    assert!(t.calls.values().any(|n| n == "helper"));
}
