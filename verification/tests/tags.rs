use lci_codegraph::lang::parse;
use lci_codegraph::lang::scala::{composed_tags_source, TAGS_QUERY, TAGS_QUERY_SUPPLEMENT};
use lci_codegraph::tags::{classify, extract, map_def_kind, Capture};

fn cap(name: &str, node_id: usize, start: usize, end: usize) -> Capture {
    Capture { name: name.to_string(), node_id, start_byte: start, end_byte: end }
}

fn tagged(language: &str, code: &str) -> lci_codegraph::tags::TaggedSymbols {
    let tree = parse(code, language).expect("parses");
    extract(language, &tree, code).expect("has a tags pipeline")
}

#[test]
fn def_kinds_keep_callables_and_type_containers() {
    assert_eq!(map_def_kind("function"), Some("function"));
    assert_eq!(map_def_kind("method"), Some("method"));
    assert_eq!(map_def_kind("class"), Some("class"));
    assert_eq!(map_def_kind("object"), Some("class"));
    assert_eq!(map_def_kind("interface"), Some("interface"));
    assert_eq!(map_def_kind("enum"), Some("enum"));
    assert_eq!(map_def_kind("type"), Some("type"));
    for dropped in ["constant", "module", "variable", "property", "", "Function"] {
        assert_eq!(map_def_kind(dropped), None, "{dropped}");
    }
}

#[test]
fn classify_records_definitions_with_their_names_and_calls_by_name_node() {
    let source = "fn alpha() { beta(); }";
    let matches = vec![
        vec![cap("name", 7, 3, 8), cap("definition.function", 3, 0, 22)],
        vec![cap("name", 11, 13, 17), cap("reference.call", 10, 13, 19)],
        vec![cap("name", 12, 0, 2), cap("definition.variable", 4, 0, 2)],
        vec![cap("doc", 13, 0, 2)],
    ];
    let t = classify(&matches, source);
    assert_eq!(t.defs.len(), 1);
    let def = &t.defs[&3];
    assert_eq!(def.kind, "function");
    assert_eq!(def.name.as_deref(), Some("alpha"));
    assert_eq!(t.calls.len(), 1);
    assert_eq!(t.calls[&11], "beta");
}

#[test]
fn a_definition_without_a_name_is_kept_and_a_call_without_one_is_not() {
    let matches = vec![
        vec![cap("definition.class", 1, 0, 1)],
        vec![cap("reference.call", 2, 0, 1)],
    ];
    let t = classify(&matches, "x");
    assert!(t.defs[&1].name.is_none());
    assert!(t.calls.is_empty());
}

#[test]
fn a_later_match_on_the_same_node_overwrites_an_earlier_one() {
    let source = "ab";
    let matches = vec![
        vec![cap("name", 5, 0, 1), cap("definition.function", 1, 0, 2)],
        vec![cap("name", 5, 1, 2), cap("definition.method", 1, 0, 2)],
    ];
    let t = classify(&matches, source);
    assert_eq!(t.defs[&1].kind, "method");
    assert_eq!(t.defs[&1].name.as_deref(), Some("b"));
}

#[test]
fn rust_has_no_tags_pipeline() {
    let tree = parse("fn a() {}\n", "rust").unwrap();
    assert!(extract("rust", &tree, "fn a() {}\n").is_none());
    assert!(extract("json", &tree, "fn a() {}\n").is_none());
    assert!(extract("nope", &tree, "fn a() {}\n").is_none());
}

#[test]
fn java_tags_find_class_method_and_calls() {
    let t = tagged("java", "class C { void m() { other(); } }\n");
    let kinds: Vec<&str> = t.defs.values().map(|d| d.kind).collect();
    assert!(kinds.contains(&"class"), "class def: {:?}", t.defs);
    assert!(kinds.contains(&"method"), "method def: {:?}", t.defs);
    assert!(t.calls.values().any(|n| n == "other"), "call ref: {:?}", t.calls);
}

#[test]
fn scala_object_definitions_are_classified_as_class() {
    let t = tagged("scala", "object Hello {\n  def a(): Unit = {}\n}\n");
    let kinds: Vec<&str> = t.defs.values().map(|d| d.kind).collect();
    assert!(kinds.contains(&"class"), "singleton object folded into class: {:?}", t.defs);
    assert!(kinds.contains(&"function"), "method captured: {:?}", t.defs);
}

#[test]
fn scala_type_alias_is_kept_but_val_and_var_are_dropped() {
    let t = tagged("scala", "type Id = Int\nval x: Int = 1\nvar y: Int = 2\ndef a(): Unit = {}\n");
    let kinds: Vec<&str> = t.defs.values().map(|d| d.kind).collect();
    assert!(kinds.contains(&"type"), "type alias kept: {:?}", t.defs);
    assert!(!kinds.contains(&"variable"), "val/var dropped: {:?}", t.defs);
}

#[test]
fn cstack_schemas_define_but_never_call() {
    let t = tagged(
        "cstack",
        "mixin Timestamps {\n  createdAt DateTime\n}\n\nenum Role {\n  Admin\n}\n\n\
         model User {\n  id Int @id\n  role Role\n  @use(Timestamps)\n}\n\nprocedure ping(): Int\n",
    );
    let kinds: Vec<&str> = t.defs.values().map(|d| d.kind).collect();
    for expected in ["class", "interface", "enum", "function"] {
        assert!(kinds.contains(&expected), "missing {expected}: {:?}", t.defs);
    }
    assert!(t.calls.is_empty());
}

#[test]
fn scala_qualified_calls_are_captured_not_just_bare_calls() {
    let t = tagged(
        "scala",
        "object Foo {\n  def helper(): Unit = {}\n}\nobject Caller {\n  def run(): Unit = {\n    Foo.helper()\n    bare()\n  }\n}\n",
    );
    assert!(t.calls.values().any(|name| name == "helper"), "qualified call: {:?}", t.calls);
    assert!(t.calls.values().any(|name| name == "bare"), "bare call: {:?}", t.calls);
}

#[test]
fn scala_composed_query_is_the_grammar_query_then_the_supplement() {
    assert_eq!(composed_tags_source(), format!("{TAGS_QUERY}\n{TAGS_QUERY_SUPPLEMENT}"));
}
